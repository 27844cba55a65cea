//! Paths as sequences of segments: joining, normalizing and rendering.

use vstd::prelude::*;

verus! {

/// What a path is: whether it starts at the root, and its segments in order.
pub struct PathModel {
    pub absolute: bool,
    pub segments: Seq<Seq<char>>,
}

/// A local or remote path, held segment by segment.
#[derive(Debug)]
pub struct FsPath {
    pub absolute: bool,
    pub segments: Vec<String>,
}

/// The segments of `v` as character sequences.
pub open spec fn segment_views(v: Seq<String>) -> Seq<Seq<char>> {
    Seq::new(v.len(), |i: int| v[i]@)
}

impl View for FsPath {
    type V = PathModel;

    open spec fn view(&self) -> PathModel {
        PathModel { absolute: self.absolute, segments: segment_views(self.segments@) }
    }
}

/// The segment that names the directory it stands in.
pub open spec fn is_cur_dir(segment: Seq<char>) -> bool {
    segment == seq!['.']
}

/// The predicate that normalization keeps segments by.
pub open spec fn kept() -> spec_fn(Seq<char>) -> bool {
    |segment: Seq<char>| !is_cur_dir(segment)
}

/// A path without its self-referential segments; all others stay, in order.
pub open spec fn normalized(p: PathModel) -> PathModel {
    PathModel { absolute: p.absolute, segments: p.segments.filter(kept()) }
}

/// Whether no segment of `p` is self-referential.
pub open spec fn is_normal(p: PathModel) -> bool {
    forall|i: int| 0 <= i < p.segments.len() ==> !is_cur_dir(#[trigger] p.segments[i])
}

/// `rel` seen from `base`: an absolute `rel` replaces `base`, a relative one is appended.
pub open spec fn joined(base: PathModel, rel: PathModel) -> PathModel {
    if rel.absolute {
        rel
    } else {
        PathModel { absolute: base.absolute, segments: base.segments + rel.segments }
    }
}

/// `p` with one more segment at its end.
pub open spec fn with_child(p: PathModel, name: Seq<char>) -> PathModel {
    PathModel { absolute: p.absolute, segments: p.segments.push(name) }
}

/// The segments written one after another with `/` between them.
pub open spec fn segments_text(segments: Seq<Seq<char>>) -> Seq<char>
    decreases segments.len(),
{
    if segments.len() == 0 {
        Seq::empty()
    } else if segments.len() == 1 {
        segments[0]
    } else {
        segments_text(segments.drop_last()) + seq!['/'] + segments.last()
    }
}

/// The text of a path: a leading `/` where it is absolute, then its segments.
pub open spec fn rendered(p: PathModel) -> Seq<char> {
    if p.absolute {
        seq!['/'] + segments_text(p.segments)
    } else {
        segments_text(p.segments)
    }
}

proof fn lemma_views_push(v: Seq<String>, s: String)
    ensures
        segment_views(v.push(s)) == segment_views(v).push(s@),
{
    assert(segment_views(v.push(s)) =~= segment_views(v).push(s@));
}

proof fn lemma_filter_push(s: Seq<Seq<char>>, x: Seq<char>, pred: spec_fn(Seq<char>) -> bool)
    ensures
        s.push(x).filter(pred) == if pred(x) {
            s.filter(pred).push(x)
        } else {
            s.filter(pred)
        },
{
    reveal(Seq::filter);
    assert(s.push(x).drop_last() =~= s);
}

proof fn lemma_filter_twice(s: Seq<Seq<char>>)
    ensures
        s.filter(kept()).filter(kept()) == s.filter(kept()),
    decreases s.len(),
{
    reveal(Seq::filter);
    if s.len() > 0 {
        lemma_filter_twice(s.drop_last());
        if !is_cur_dir(s.last()) {
            lemma_filter_push(s.drop_last().filter(kept()), s.last(), kept());
        }
    }
}

proof fn lemma_filter_normal(s: Seq<Seq<char>>)
    requires
        forall|i: int| 0 <= i < s.len() ==> !is_cur_dir(#[trigger] s[i]),
    ensures
        s.filter(kept()) == s,
    decreases s.len(),
{
    reveal(Seq::filter);
    if s.len() > 0 {
        lemma_filter_normal(s.drop_last());
        assert(s.drop_last().push(s.last()) =~= s);
    }
}

/// The pieces of `text` between the occurrences of `sep`: one more than
/// there are occurrences, empty pieces included.
pub open spec fn split_text(text: Seq<char>, sep: char) -> Seq<Seq<char>>
    decreases text.len(),
{
    if text.len() == 0 {
        seq![Seq::empty()]
    } else {
        let rest = split_text(text.drop_last(), sep);
        if text.last() == sep {
            rest.push(Seq::empty())
        } else {
            rest.drop_last().push(rest.last().push(text.last()))
        }
    }
}

/// The predicate that parsing keeps pieces by: empty ones name nothing.
pub open spec fn named() -> spec_fn(Seq<char>) -> bool {
    |segment: Seq<char>| segment.len() > 0
}

/// The path that `text` spells: absolute where it starts with `/`, its
/// segments the non-empty pieces between the `/`.
pub open spec fn parsed(text: Seq<char>) -> PathModel {
    PathModel {
        absolute: text.len() > 0 && text[0] == '/',
        segments: split_text(text, '/').filter(named()),
    }
}

/// Normalizing a normalized path changes nothing.
pub proof fn normalize_is_idempotent(p: PathModel)
    ensures
        normalized(normalized(p)) == normalized(p),
        is_normal(normalized(p)),
{
    lemma_filter_twice(p.segments);
    assert forall|i: int| 0 <= i < normalized(p).segments.len() implies !is_cur_dir(
        #[trigger] normalized(p).segments[i],
    ) by {
        p.segments.lemma_filter_pred(kept(), i);
    }
}

/// Where a path goes, its child goes right below: joining a child of `dir`
/// to `base` and normalizing gives the child, under the same name, of what
/// `dir` gives, unless the name is the self-referential segment.
pub proof fn child_stays_below_parent(base: PathModel, dir: PathModel, name: Seq<char>)
    requires
        !is_cur_dir(name),
    ensures
        normalized(joined(base, with_child(dir, name))) == with_child(
            normalized(joined(base, dir)),
            name,
        ),
{
    if dir.absolute {
        lemma_filter_push(dir.segments, name, kept());
    } else {
        assert(base.segments + dir.segments.push(name) =~= (base.segments + dir.segments).push(
            name,
        ));
        lemma_filter_push(base.segments + dir.segments, name, kept());
    }
}

/// A path without self-referential segments is its own normal form.
pub proof fn normalize_keeps_normal(p: PathModel)
    requires
        is_normal(p),
    ensures
        normalized(p) == p,
{
    lemma_filter_normal(p.segments);
}

/// Whether `segment` is the text `.`.
pub fn segment_is_cur_dir(segment: &str) -> (r: bool)
    ensures
        r == is_cur_dir(segment@),
{
    if segment.unicode_len() == 1 {
        let c = segment.get_char(0);
        proof {
            if c == '.' {
                assert(segment@ =~= seq!['.']);
            } else {
                assert(seq!['.'][0] == '.');
            }
        }
        c == '.'
    } else {
        proof {
            assert(seq!['.'].len() == 1);
        }
        false
    }
}

/// Splits `text` at every `sep`.
pub fn split(text: &str, sep: char) -> (r: Vec<String>)
    ensures
        segment_views(r@) == split_text(text@, sep),
{
    let n: usize = text.unicode_len();
    let mut out: Vec<String> = Vec::new();
    let mut start: usize = 0;
    let mut i: usize = 0;
    proof {
        assert(text@.take(0).len() == 0);
        assert(text@.subrange(0, 0) =~= Seq::<char>::empty());
        assert(segment_views(out@).len() == 0);
        assert(segment_views(out@).push(text@.subrange(0, 0)) =~= seq![Seq::<char>::empty()]);
    }
    while i < n
        invariant
            start <= i <= n,
            n == text@.len(),
            split_text(text@.take(i as int), sep) == segment_views(out@).push(
                text@.subrange(start as int, i as int),
            ),
        decreases n - i,
    {
        let ghost t = text@;
        let ghost rest = split_text(t.take(i as int), sep);
        proof {
            assert(t.take(i + 1).drop_last() =~= t.take(i as int));
            assert(t.take(i + 1).last() == t[i as int]);
            assert(rest.drop_last() =~= segment_views(out@));
            assert(rest.last() == t.subrange(start as int, i as int));
            assert(t.subrange(start as int, i as int).push(t[i as int]) =~= t.subrange(
                start as int,
                i + 1,
            ));
        }
        let c = text.get_char(i);
        if c == sep {
            let piece = String::from_str(text.substring_char(start, i));
            proof {
                lemma_views_push(out@, piece);
                assert(t.subrange(i + 1, i + 1) =~= Seq::<char>::empty());
            }
            out.push(piece);
            start = i + 1;
        }
        i += 1;
    }
    let piece = String::from_str(text.substring_char(start, n));
    proof {
        lemma_views_push(out@, piece);
        assert(text@.take(n as int) =~= text@);
    }
    out.push(piece);
    out
}

/// Removes the self-referential segments of `path` and keeps everything else.
pub fn normalize_path(path: &FsPath) -> (r: FsPath)
    ensures
        r@ == normalized(path@),
        is_normal(r@),
{
    let mut out: Vec<String> = Vec::new();
    let mut i: usize = 0;
    proof {
        reveal(Seq::filter);
        assert(segment_views(path.segments@).take(0) =~= Seq::empty());
        assert(segment_views(out@) =~= Seq::empty());
    }
    while i < path.segments.len()
        invariant
            i <= path.segments.len(),
            segment_views(out@) == segment_views(path.segments@).take(i as int).filter(kept()),
        decreases path.segments.len() - i,
    {
        let ghost all = segment_views(path.segments@);
        proof {
            lemma_filter_push(all.take(i as int), all[i as int], kept());
            assert(all.take(i as int).push(all[i as int]) =~= all.take(i + 1));
        }
        if !segment_is_cur_dir(path.segments[i].as_str()) {
            proof {
                lemma_views_push(out@, path.segments@[i as int]);
            }
            out.push(path.segments[i].clone());
        }
        i += 1;
    }
    let r = FsPath { absolute: path.absolute, segments: out };
    proof {
        let all = segment_views(path.segments@);
        assert(all.take(i as int) =~= all);
        normalize_is_idempotent(path@);
    }
    r
}

impl FsPath {
    /// The path of no segments: the root where `absolute`, else the empty path.
    pub fn new(absolute: bool) -> (r: FsPath)
        ensures
            r@ == (PathModel { absolute, segments: Seq::empty() }),
    {
        let r = FsPath { absolute, segments: Vec::new() };
        proof {
            assert(r@.segments =~= Seq::empty());
        }
        r
    }

    /// Reads a path from its text.
    pub fn parse(text: &str) -> (r: FsPath)
        ensures
            r@ == parsed(text@),
    {
        let pieces = split(text, '/');
        let absolute = text.unicode_len() > 0 && text.get_char(0) == '/';
        let mut out: Vec<String> = Vec::new();
        let mut i: usize = 0;
        proof {
            reveal(Seq::filter);
            assert(segment_views(pieces@).take(0) =~= Seq::empty());
            assert(segment_views(out@) =~= Seq::empty());
        }
        while i < pieces.len()
            invariant
                i <= pieces.len(),
                segment_views(out@) == segment_views(pieces@).take(i as int).filter(named()),
            decreases pieces.len() - i,
        {
            let ghost all = segment_views(pieces@);
            proof {
                lemma_filter_push(all.take(i as int), all[i as int], named());
                assert(all.take(i as int).push(all[i as int]) =~= all.take(i + 1));
            }
            if pieces[i].as_str().unicode_len() > 0 {
                proof {
                    lemma_views_push(out@, pieces@[i as int]);
                }
                out.push(pieces[i].clone());
            }
            i += 1;
        }
        proof {
            assert(segment_views(pieces@).take(i as int) =~= segment_views(pieces@));
        }
        FsPath { absolute, segments: out }
    }

    /// A copy of this path.
    pub fn duplicate(&self) -> (r: FsPath)
        ensures
            r@ == self@,
    {
        let mut out: Vec<String> = Vec::new();
        let mut i: usize = 0;
        while i < self.segments.len()
            invariant
                i <= self.segments.len(),
                segment_views(out@) =~= segment_views(self.segments@).take(i as int),
            decreases self.segments.len() - i,
        {
            proof {
                lemma_views_push(out@, self.segments@[i as int]);
            }
            out.push(self.segments[i].clone());
            i += 1;
        }
        let r = FsPath { absolute: self.absolute, segments: out };
        proof {
            assert(r@.segments =~= self@.segments);
        }
        r
    }

    /// This path with `name` as one more segment.
    pub fn child(&self, name: &str) -> (r: FsPath)
        ensures
            r@ == with_child(self@, name@),
    {
        let mut r = self.duplicate();
        r.segments.push(String::from_str(name));
        proof {
            assert(r@.segments =~= self@.segments.push(name@));
        }
        r
    }

    /// `rel` seen from this path.
    pub fn join(&self, rel: &FsPath) -> (r: FsPath)
        ensures
            r@ == joined(self@, rel@),
    {
        if rel.absolute {
            rel.duplicate()
        } else {
            let mut r = self.duplicate();
            let mut i: usize = 0;
            while i < rel.segments.len()
                invariant
                    i <= rel.segments.len(),
                    r.absolute == self.absolute,
                    segment_views(r.segments@) =~= self@.segments + rel@.segments.take(i as int),
                decreases rel.segments.len() - i,
            {
                proof {
                    lemma_views_push(r.segments@, rel.segments@[i as int]);
                }
                r.segments.push(rel.segments[i].clone());
                i += 1;
            }
            proof {
                assert(rel@.segments.take(i as int) =~= rel@.segments);
            }
            r
        }
    }

    /// Whether the two paths are the same, segment by segment.
    pub fn same(&self, other: &FsPath) -> (r: bool)
        ensures
            r == (self@ == other@),
    {
        if self.absolute != other.absolute || self.segments.len() != other.segments.len() {
            proof {
                assert(self@.segments.len() == self.segments@.len());
                assert(other@.segments.len() == other.segments@.len());
            }
            return false;
        }
        let mut i: usize = 0;
        while i < self.segments.len()
            invariant
                i <= self.segments.len(),
                self.segments.len() == other.segments.len(),
                forall|j: int| 0 <= j < i ==> self.segments@[j]@ == other.segments@[j]@,
            decreases self.segments.len() - i,
        {
            if self.segments[i] != other.segments[i] {
                proof {
                    assert(self@.segments[i as int] == self.segments@[i as int]@);
                    assert(other@.segments[i as int] == other.segments@[i as int]@);
                }
                return false;
            }
            i += 1;
        }
        proof {
            assert(self@.segments =~= other@.segments);
        }
        true
    }

    /// The text of this path.
    pub fn render(&self) -> (r: String)
        ensures
            r@ == rendered(self@),
    {
        let mut out = if self.absolute {
            String::from_str("/")
        } else {
            String::new()
        };
        proof {
            reveal_strlit("/");
            assert("/"@ =~= seq!['/']);
        }
        let ghost lead = out@;
        let mut i: usize = 0;
        while i < self.segments.len()
            invariant
                i <= self.segments.len(),
                out@ == lead + segments_text(self@.segments.take(i as int)),
            decreases self.segments.len() - i,
        {
            let ghost all = self@.segments;
            proof {
                reveal_strlit("/");
                assert("/"@ =~= seq!['/']);
                assert(all.take(i + 1).drop_last() =~= all.take(i as int));
                assert(all.take(i + 1).last() == self.segments@[i as int]@);
            }
            if i > 0 {
                out.append("/");
            }
            out.append(self.segments[i].as_str());
            proof {
                if i == 0 {
                    assert(all.take(0).len() == 0);
                    assert(out@ =~= lead + segments_text(all.take(1)));
                } else {
                    assert(out@ =~= lead + segments_text(all.take(i + 1)));
                }
            }
            i += 1;
        }
        proof {
            assert(self@.segments.take(i as int) =~= self@.segments);
        }
        out
    }
}

} // verus!
