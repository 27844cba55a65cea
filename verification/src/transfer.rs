//! Mirroring a local file or directory tree onto the remote host: an explicit
//! stack of paths still to visit, and the paths already visited.

use vstd::prelude::*;
use crate::path::joined;
use crate::path::normalize_path;
use crate::path::normalized;
use crate::path::FsPath;
use crate::path::PathModel;
use crate::session::make_dir;
use crate::session::make_dir_text;
use crate::session::send_file;
use crate::session::upload;
use crate::session::Request;
use crate::session::RequestModel;
use crate::session::EXECUTABLE_MODE;

verus! {

/// What was found at a local path.
#[derive(Debug)]
pub enum Found {
    /// A regular file, with its bytes.
    File { content: Vec<u8> },
    /// A directory.
    Directory,
    /// Neither.
    Other,
}

/// What was found, as values.
pub enum FoundModel {
    File { content: Seq<u8> },
    Directory,
    Other,
}

impl View for Found {
    type V = FoundModel;

    open spec fn view(&self) -> FoundModel {
        match self {
            Found::File { content } => FoundModel::File { content: content@ },
            Found::Directory => FoundModel::Directory,
            Found::Other => FoundModel::Other,
        }
    }
}

fn copy_bytes(bytes: &Vec<u8>) -> (r: Vec<u8>)
    ensures
        r@ == bytes@,
{
    let mut out: Vec<u8> = Vec::new();
    let mut i: usize = 0;
    while i < bytes.len()
        invariant
            i <= bytes.len(),
            out@ =~= bytes@.take(i as int),
        decreases bytes.len() - i,
    {
        out.push(bytes[i]);
        i += 1;
    }
    proof {
        assert(bytes@.take(i as int) =~= bytes@);
    }
    out
}

impl Found {
    /// A copy of what was found.
    pub fn duplicate(&self) -> (r: Found)
        ensures
            r@ == self@,
    {
        match self {
            Found::File { content } => Found::File { content: copy_bytes(content) },
            Found::Directory => Found::Directory,
            Found::Other => Found::Other,
        }
    }
}

/// A transfer under way.
#[derive(Debug)]
pub struct Transfer {
    /// The remote directory that local paths are joined to.
    pub remote: FsPath,
    /// The paths still to visit; the last one comes next.
    pub pending: Vec<FsPath>,
    /// The paths that were visited.
    pub visited: Vec<FsPath>,
}

/// The paths of `v`, each by its view.
pub open spec fn path_views(v: Seq<FsPath>) -> Seq<PathModel> {
    Seq::new(v.len(), |i: int| v[i]@)
}

/// Where the local path `local` goes under the remote directory `remote`.
pub open spec fn remote_of(remote: PathModel, local: PathModel) -> PathModel {
    normalized(joined(remote, local))
}

/// The stack `pending` once the visited paths at its top are dropped.
pub open spec fn settled(pending: Seq<PathModel>, visited: Seq<PathModel>) -> Seq<PathModel>
    decreases pending.len(),
{
    if pending.len() == 0 {
        pending
    } else if visited.contains(pending.last()) {
        settled(pending.drop_last(), visited)
    } else {
        pending
    }
}

/// The paths of `entries` that are not in `visited`, in their order.
pub open spec fn unvisited(entries: Seq<PathModel>, visited: Seq<PathModel>) -> Seq<PathModel>
    decreases entries.len(),
{
    if entries.len() == 0 {
        entries
    } else {
        let rest = unvisited(entries.drop_last(), visited);
        if visited.contains(entries.last()) {
            rest
        } else {
            rest.push(entries.last())
        }
    }
}

/// The request that visiting `path` gives rise to, if any: a file is
/// uploaded as an executable file, a directory is created remotely.
pub open spec fn request_for(remote: PathModel, path: PathModel, found: FoundModel) -> Option<
    RequestModel,
> {
    match found {
        FoundModel::File { content } => Some(
            upload(remote_of(remote, path), EXECUTABLE_MODE as int, content),
        ),
        FoundModel::Directory => Some(
            RequestModel::Execute { command: make_dir_text(remote_of(remote, path)) },
        ),
        FoundModel::Other => None,
    }
}

pub(crate) proof fn lemma_paths_push(v: Seq<FsPath>, p: FsPath)
    ensures
        path_views(v.push(p)) == path_views(v).push(p@),
{
    assert(path_views(v.push(p)) =~= path_views(v).push(p@));
}

impl Transfer {
    /// The paths still to visit.
    pub open spec fn pending_paths(&self) -> Seq<PathModel> {
        path_views(self.pending@)
    }

    /// The paths that were visited, in the order of their visits.
    pub open spec fn visited_paths(&self) -> Seq<PathModel> {
        path_views(self.visited@)
    }

    /// No path was visited twice.
    pub open spec fn wf(&self) -> bool {
        self.visited_paths().no_duplicates()
    }

    /// A transfer of `local` into `remote` that has visited nothing yet.
    pub open spec fn starts(&self, local: PathModel, remote: PathModel) -> bool {
        &&& self.remote@ == remote
        &&& self.pending_paths() == seq![local]
        &&& self.visited_paths() == Seq::<PathModel>::empty()
    }

    /// Starts the transfer of `local` into the remote directory `remote`.
    pub fn new(local: FsPath, remote: FsPath) -> (r: Transfer)
        ensures
            r.starts(local@, remote@),
            r.wf(),
    {
        let mut pending: Vec<FsPath> = Vec::new();
        pending.push(local);
        let r = Transfer { remote, pending, visited: Vec::new() };
        proof {
            assert(r.pending_paths() =~= seq![local@]);
            assert(r.visited_paths() =~= Seq::<PathModel>::empty());
        }
        r
    }

    /// Whether `path` was visited.
    pub fn is_visited(&self, path: &FsPath) -> (r: bool)
        ensures
            r == self.visited_paths().contains(path@),
    {
        let mut i: usize = 0;
        while i < self.visited.len()
            invariant
                i <= self.visited.len(),
                forall|j: int| 0 <= j < i ==> self.visited_paths()[j] != path@,
            decreases self.visited.len() - i,
        {
            if self.visited[i].same(path) {
                proof {
                    assert(self.visited_paths()[i as int] == path@);
                }
                return true;
            }
            i += 1;
        }
        false
    }

    /// Where the local path `path` goes remotely: joined to the remote
    /// directory, then normalized.
    pub fn remote_for(&self, path: &FsPath) -> (r: FsPath)
        ensures
            r@ == remote_of(self.remote@, path@),
    {
        normalize_path(&self.remote.join(path))
    }

    /// Takes the next path to visit off the stack. Paths that were visited
    /// since they were pushed are dropped on the way. `None` means that the
    /// transfer is complete.
    pub fn next(&mut self) -> (r: Option<FsPath>)
        ensures
            old(self).wf() ==> final(self).wf(),
            final(self).remote@ == old(self).remote@,
            final(self).visited_paths() == old(self).visited_paths(),
            match r {
                Some(path) => {
                    let rest = settled(old(self).pending_paths(), old(self).visited_paths());
                    &&& rest.len() > 0
                    &&& path@ == rest.last()
                    &&& final(self).pending_paths() == rest.drop_last()
                    &&& !old(self).visited_paths().contains(path@)
                },
                None => {
                    &&& settled(old(self).pending_paths(), old(self).visited_paths()).len() == 0
                    &&& final(self).pending_paths().len() == 0
                },
            },
    {
        loop
            invariant
                self.remote == old(self).remote,
                self.visited == old(self).visited,
                settled(self.pending_paths(), self.visited_paths()) == settled(
                    old(self).pending_paths(),
                    old(self).visited_paths(),
                ),
            decreases self.pending.len(),
        {
            let ghost before = self.pending_paths();
            match self.pending.pop() {
                None => {
                    return None;
                },
                Some(path) => {
                    proof {
                        assert(before.last() == path@);
                        assert(self.pending_paths() =~= before.drop_last());
                    }
                    if !self.is_visited(&path) {
                        return Some(path);
                    }
                },
            }
        }
    }

    /// Visits `path`, at which `found` was found. A path that was visited
    /// before is passed over: nothing changes and nothing is requested.
    /// Otherwise a file gives the request that uploads it and a directory the
    /// request that creates its remote counterpart, and the path counts as
    /// visited from here on, whatever was found.
    pub fn visit(&mut self, path: FsPath, found: Found) -> (r: Option<Request>)
        ensures
            old(self).wf() ==> final(self).wf(),
            final(self).remote@ == old(self).remote@,
            final(self).pending_paths() == old(self).pending_paths(),
            old(self).visited_paths().contains(path@) ==> {
                &&& r is None
                &&& final(self).visited_paths() == old(self).visited_paths()
            },
            !old(self).visited_paths().contains(path@) ==> {
                &&& match r {
                    Some(request) => Some(request@),
                    None => None,
                } == request_for(old(self).remote@, path@, found@)
                &&& final(self).visited_paths() == old(self).visited_paths().push(path@)
            },
    {
        if self.is_visited(&path) {
            return None;
        }
        let remote = self.remote_for(&path);
        let request = match found {
            Found::File { content } => Some(send_file(content, &remote, EXECUTABLE_MODE)),
            Found::Directory => Some(make_dir(&remote)),
            Found::Other => None,
        };
        proof {
            lemma_paths_push(self.visited@, path);
        }
        self.visited.push(path);
        request
    }

    /// Takes in the entries of a directory, once its remote counterpart was
    /// asked for: those that were not visited go on the stack, in their
    /// order; an entry that was visited is passed over.
    pub fn list(&mut self, entries: &Vec<FsPath>)
        ensures
            old(self).wf() ==> final(self).wf(),
            final(self).remote@ == old(self).remote@,
            final(self).visited_paths() == old(self).visited_paths(),
            final(self).pending_paths() == old(self).pending_paths() + unvisited(
                path_views(entries@),
                old(self).visited_paths(),
            ),
    {
        let ghost base = self.pending_paths();
        let ghost all = path_views(entries@);
        let mut i: usize = 0;
        proof {
            assert(base =~= base + unvisited(all.take(0), self.visited_paths()));
        }
        while i < entries.len()
            invariant
                i <= entries.len(),
                all == path_views(entries@),
                self.remote == old(self).remote,
                self.visited == old(self).visited,
                self.pending_paths() == base + unvisited(all.take(i as int), self.visited_paths()),
            decreases entries.len() - i,
        {
            proof {
                assert(all.take(i + 1).drop_last() =~= all.take(i as int));
                assert(all.take(i + 1).last() == entries@[i as int]@);
            }
            if !self.is_visited(&entries[i]) {
                let entry = entries[i].duplicate();
                proof {
                    lemma_paths_push(self.pending@, entry);
                    assert(base + unvisited(all.take(i + 1), self.visited_paths()) =~= (base
                        + unvisited(all.take(i as int), self.visited_paths())).push(entry@));
                }
                self.pending.push(entry);
            }
            i += 1;
        }
        proof {
            assert(all.take(i as int) =~= all);
        }
    }

    /// Gives the transfer up, as after a request that failed: nothing is left
    /// to visit, so `next` hands out no further path and no further request
    /// arises. What was visited stays on record.
    pub fn abandon(&mut self)
        ensures
            old(self).wf() ==> final(self).wf(),
            final(self).remote@ == old(self).remote@,
            final(self).visited_paths() == old(self).visited_paths(),
            final(self).pending_paths() == Seq::<PathModel>::empty(),
    {
        self.pending = Vec::new();
        proof {
            assert(self.pending_paths() =~= Seq::<PathModel>::empty());
        }
    }

    /// Whether nothing is left to visit.
    pub fn is_done(&self) -> (r: bool)
        ensures
            r == (self.pending_paths().len() == 0),
    {
        self.pending.len() == 0
    }
}

} // verus!
