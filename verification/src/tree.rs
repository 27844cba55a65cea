//! A whole transfer against a record of the local files: which paths are
//! visited, in which order, and which requests that makes.

use vstd::prelude::*;
use crate::path::FsPath;
use crate::path::PathModel;
use crate::session::make_dir_text;
use crate::session::request_views;
use crate::session::Request;
use crate::session::RequestModel;
use crate::transfer::lemma_paths_push;
use crate::transfer::path_views;
use crate::transfer::remote_of;
use crate::transfer::request_for;
use crate::transfer::settled;
use crate::transfer::unvisited;
use crate::transfer::Found;
use crate::transfer::FoundModel;
use crate::transfer::Transfer;

verus! {

/// What lies at one local path; `entries` are the paths of the entries of a
/// directory.
#[derive(Debug)]
pub struct Node {
    pub path: FsPath,
    pub found: Found,
    pub entries: Vec<FsPath>,
}

/// A node, as values.
pub struct NodeModel {
    pub path: PathModel,
    pub found: FoundModel,
    pub entries: Seq<PathModel>,
}

impl View for Node {
    type V = NodeModel;

    open spec fn view(&self) -> NodeModel {
        NodeModel { path: self.path@, found: self.found@, entries: path_views(self.entries@) }
    }
}

/// A record of the local files: what lies at each path it names. The first
/// node of a path counts; at a path that it does not name lies nothing.
#[derive(Debug)]
pub struct LocalTree {
    pub nodes: Vec<Node>,
}

/// The nodes of `v`, each by its views.
pub open spec fn node_views(v: Seq<Node>) -> Seq<NodeModel> {
    Seq::new(v.len(), |i: int| v[i]@)
}

impl View for LocalTree {
    type V = Seq<NodeModel>;

    open spec fn view(&self) -> Seq<NodeModel> {
        node_views(self.nodes@)
    }
}

/// The first node of `nodes` that names `path`, if one does.
pub open spec fn node_at(nodes: Seq<NodeModel>, path: PathModel) -> Option<NodeModel>
    decreases nodes.len(),
{
    if nodes.len() == 0 {
        None
    } else if nodes[0].path == path {
        Some(nodes[0])
    } else {
        node_at(nodes.drop_first(), path)
    }
}

/// What lies at `path` according to `nodes`.
pub open spec fn found_at(nodes: Seq<NodeModel>, path: PathModel) -> FoundModel {
    match node_at(nodes, path) {
        Some(node) => node.found,
        None => FoundModel::Other,
    }
}

/// The entries of the directory at `path`; there are none where `path` is no
/// directory.
pub open spec fn entries_at(nodes: Seq<NodeModel>, path: PathModel) -> Seq<PathModel> {
    match node_at(nodes, path) {
        Some(node) => if node.found is Directory {
            node.entries
        } else {
            Seq::empty()
        },
        None => Seq::empty(),
    }
}

/// Whether `dir` is a directory that has `entry` among its entries.
pub open spec fn lists(nodes: Seq<NodeModel>, dir: PathModel, entry: PathModel) -> bool {
    entries_at(nodes, dir).contains(entry)
}

/// Whether `path` is where the transfer starts, or an entry of a directory
/// among `earlier`.
pub open spec fn sourced(
    nodes: Seq<NodeModel>,
    local: PathModel,
    earlier: Seq<PathModel>,
    path: PathModel,
) -> bool {
    path == local || exists|i: int| 0 <= i < earlier.len() && #[trigger] lists(nodes, earlier[i], path)
}

/// The requests that the visits give rise to, in the order of the visits.
pub open spec fn requests_of(
    nodes: Seq<NodeModel>,
    remote: PathModel,
    visits: Seq<PathModel>,
) -> Seq<RequestModel>
    decreases visits.len(),
{
    if visits.len() == 0 {
        Seq::empty()
    } else {
        let rest = requests_of(nodes, remote, visits.drop_last());
        match request_for(remote, visits.last(), found_at(nodes, visits.last())) {
            Some(request) => rest.push(request),
            None => rest,
        }
    }
}

/// What a complete transfer of `local` into `remote` is: no path is visited
/// twice; the start is visited, and with each directory all of its entries;
/// every path but the start is an entry of a directory visited before it; and
/// the requests are those of the visits, in their order. A file is therefore
/// uploaded only after the directory that lists it was created remotely.
pub open spec fn mirrors(
    nodes: Seq<NodeModel>,
    local: PathModel,
    remote: PathModel,
    visits: Seq<PathModel>,
    requests: Seq<RequestModel>,
) -> bool {
    &&& visits.no_duplicates()
    &&& visits.contains(local)
    &&& forall|i: int, entry: PathModel|
        0 <= i < visits.len() && #[trigger] lists(nodes, visits[i], entry) ==> visits.contains(entry)
    &&& forall|j: int|
        0 <= j < visits.len() ==> #[trigger] sourced(nodes, local, visits.take(j), visits[j])
    &&& requests == requests_of(nodes, remote, visits)
}

/// Whether, among the requests of `visits`, the one that creates the remote
/// counterpart of the directory visited at `i` comes before everything that
/// the visit at `j` requests.
pub open spec fn created_before(
    nodes: Seq<NodeModel>,
    remote: PathModel,
    visits: Seq<PathModel>,
    i: int,
    j: int,
) -> bool {
    let upto = requests_of(nodes, remote, visits.take(i + 1));
    let before = requests_of(nodes, remote, visits.take(j));
    let all = requests_of(nodes, remote, visits);
    &&& upto.len() > 0
    &&& upto.last() == (RequestModel::Execute {
        command: make_dir_text(remote_of(remote, visits[i])),
    })
    &&& upto.len() <= before.len() <= all.len()
    &&& before.take(upto.len() as int) == upto
    &&& all.take(before.len() as int) == before
}

proof fn lemma_requests_grow(
    nodes: Seq<NodeModel>,
    remote: PathModel,
    visits: Seq<PathModel>,
    a: int,
    b: int,
)
    requires
        0 <= a <= b <= visits.len(),
    ensures
        requests_of(nodes, remote, visits.take(a)).len() <= requests_of(
            nodes,
            remote,
            visits.take(b),
        ).len(),
        requests_of(nodes, remote, visits.take(b)).take(
            requests_of(nodes, remote, visits.take(a)).len() as int,
        ) == requests_of(nodes, remote, visits.take(a)),
    decreases b - a,
{
    let short = requests_of(nodes, remote, visits.take(a));
    if a == b {
        assert(short.take(short.len() as int) =~= short);
    } else {
        lemma_requests_grow(nodes, remote, visits, a, b - 1);
        let mid = requests_of(nodes, remote, visits.take(b - 1));
        let long = requests_of(nodes, remote, visits.take(b));
        assert(visits.take(b).drop_last() =~= visits.take(b - 1));
        assert(long.len() >= mid.len());
        assert(long.take(mid.len() as int) =~= mid);
        assert(long.take(short.len() as int) =~= mid.take(short.len() as int));
    }
}

/// In a complete transfer, every path but the start was listed by a
/// directory that was visited before it, and the request that creates that
/// directory remotely comes before whatever the path itself gives rise to: no
/// file is uploaded before the directory that holds it exists.
pub proof fn directory_comes_first(
    nodes: Seq<NodeModel>,
    local: PathModel,
    remote: PathModel,
    visits: Seq<PathModel>,
    requests: Seq<RequestModel>,
    j: int,
)
    requires
        mirrors(nodes, local, remote, visits, requests),
        0 <= j < visits.len(),
        visits[j] != local,
    ensures
        exists|i: int|
            0 <= i < j && #[trigger] lists(nodes, visits[i], visits[j]) && created_before(
                nodes,
                remote,
                visits,
                i,
                j,
            ),
{
    assert(sourced(nodes, local, visits.take(j), visits[j]));
    let i = choose|i: int|
        0 <= i < visits.take(j).len() && #[trigger] lists(nodes, visits.take(j)[i], visits[j]);
    assert(visits.take(j)[i] == visits[i]);
    assert(visits.take(i + 1).last() == visits[i]);
    lemma_requests_grow(nodes, remote, visits, i + 1, j);
    lemma_requests_grow(nodes, remote, visits, j, visits.len() as int);
    assert(visits.take(visits.len() as int) =~= visits);
    assert(lists(nodes, visits[i], visits[j]) && created_before(nodes, remote, visits, i, j));
}

/// The directories of `nodes` that are not among `visited`, counted node by
/// node.
spec fn open_dirs(nodes: Seq<NodeModel>, visited: Seq<PathModel>) -> nat
    decreases nodes.len(),
{
    if nodes.len() == 0 {
        0
    } else {
        let rest = open_dirs(nodes.drop_last(), visited);
        if nodes.last().found is Directory && !visited.contains(nodes.last().path) {
            rest + 1
        } else {
            rest
        }
    }
}

spec fn pushed(nodes: Seq<NodeModel>, path: PathModel, visited: Seq<PathModel>) -> Seq<PathModel> {
    unvisited(entries_at(nodes, path), visited)
}

spec fn covered(
    nodes: Seq<NodeModel>,
    visited: Seq<PathModel>,
    pending: Seq<PathModel>,
) -> bool {
    forall|i: int, entry: PathModel|
        0 <= i < visited.len() && #[trigger] lists(nodes, visited[i], entry) ==> visited.contains(
            entry,
        ) || pending.contains(entry)
}

spec fn descended(
    nodes: Seq<NodeModel>,
    local: PathModel,
    visited: Seq<PathModel>,
) -> bool {
    forall|j: int|
        0 <= j < visited.len() ==> #[trigger] sourced(nodes, local, visited.take(j), visited[j])
}

spec fn announced(
    nodes: Seq<NodeModel>,
    local: PathModel,
    visited: Seq<PathModel>,
    pending: Seq<PathModel>,
) -> bool {
    forall|k: int| 0 <= k < pending.len() ==> sourced(nodes, local, visited, #[trigger] pending[k])
}

proof fn lemma_push_contains(s: Seq<PathModel>, x: PathModel, e: PathModel)
    ensures
        s.push(x).contains(e) <==> s.contains(e) || e == x,
{
    if s.contains(e) {
        let i = choose|i: int| 0 <= i < s.len() && s[i] == e;
        assert(s.push(x)[i] == e);
    }
    if e == x {
        assert(s.push(x)[s.len() as int] == e);
    }
    if s.push(x).contains(e) {
        let i = choose|i: int| 0 <= i < s.push(x).len() && s.push(x)[i] == e;
        if i < s.len() {
            assert(s[i] == e);
        }
    }
}

proof fn lemma_add_contains(a: Seq<PathModel>, b: Seq<PathModel>, e: PathModel)
    ensures
        (a + b).contains(e) <==> a.contains(e) || b.contains(e),
{
    if a.contains(e) {
        let i = choose|i: int| 0 <= i < a.len() && a[i] == e;
        assert((a + b)[i] == e);
    }
    if b.contains(e) {
        let i = choose|i: int| 0 <= i < b.len() && b[i] == e;
        assert((a + b)[a.len() + i] == e);
    }
    if (a + b).contains(e) {
        let i = choose|i: int| 0 <= i < (a + b).len() && (a + b)[i] == e;
        if i < a.len() {
            assert(a[i] == e);
        } else {
            assert(b[i - a.len()] == e);
        }
    }
}

proof fn lemma_settled(pending: Seq<PathModel>, visited: Seq<PathModel>)
    ensures
        settled(pending, visited).len() <= pending.len(),
        settled(pending, visited) == pending.take(settled(pending, visited).len() as int),
        forall|e: PathModel|
            pending.contains(e) ==> visited.contains(e) || #[trigger] settled(
                pending,
                visited,
            ).contains(e),
    decreases pending.len(),
{
    if pending.len() == 0 {
        assert(pending.take(0) =~= pending);
    } else if visited.contains(pending.last()) {
        let shorter = pending.drop_last();
        lemma_settled(shorter, visited);
        let rest = settled(shorter, visited);
        assert(shorter.take(rest.len() as int) =~= pending.take(rest.len() as int));
        assert forall|e: PathModel| pending.contains(e) implies visited.contains(e)
            || #[trigger] rest.contains(e) by {
            assert(shorter.push(pending.last()) =~= pending);
            lemma_push_contains(shorter, pending.last(), e);
        }
    } else {
        assert(pending.take(pending.len() as int) =~= pending);
    }
}

proof fn lemma_unvisited(entries: Seq<PathModel>, visited: Seq<PathModel>)
    ensures
        forall|e: PathModel|
            entries.contains(e) ==> visited.contains(e) || #[trigger] unvisited(
                entries,
                visited,
            ).contains(e),
        forall|e: PathModel| #[trigger]
            unvisited(entries, visited).contains(e) ==> entries.contains(e),
    decreases entries.len(),
{
    if entries.len() > 0 {
        let shorter = entries.drop_last();
        let last = entries.last();
        lemma_unvisited(shorter, visited);
        let rest = unvisited(shorter, visited);
        assert(shorter.push(last) =~= entries);
        assert forall|e: PathModel| entries.contains(e) implies visited.contains(e)
            || #[trigger] unvisited(entries, visited).contains(e) by {
            lemma_push_contains(shorter, last, e);
            lemma_push_contains(rest, last, e);
        }
        assert forall|e: PathModel| #[trigger]
            unvisited(entries, visited).contains(e) implies entries.contains(e) by {
            lemma_push_contains(shorter, last, e);
            lemma_push_contains(rest, last, e);
        }
    }
}

proof fn lemma_found_directory(nodes: Seq<NodeModel>, path: PathModel)
    requires
        found_at(nodes, path) is Directory,
    ensures
        exists|k: int| 0 <= k < nodes.len() && nodes[k].path == path && nodes[k].found is Directory,
    decreases nodes.len(),
{
    if nodes[0].path == path {
        assert(nodes[0].path == path && nodes[0].found is Directory);
    } else {
        lemma_found_directory(nodes.drop_first(), path);
        let k = choose|k: int|
            0 <= k < nodes.drop_first().len() && nodes.drop_first()[k].path == path
                && nodes.drop_first()[k].found is Directory;
        assert(nodes[k + 1].path == path && nodes[k + 1].found is Directory);
    }
}

proof fn lemma_open_dirs(nodes: Seq<NodeModel>, visited: Seq<PathModel>, path: PathModel)
    ensures
        open_dirs(nodes, visited.push(path)) <= open_dirs(nodes, visited),
        !visited.contains(path) && (exists|k: int|
            0 <= k < nodes.len() && nodes[k].path == path && nodes[k].found is Directory) ==> open_dirs(
            nodes,
            visited.push(path),
        ) < open_dirs(nodes, visited),
    decreases nodes.len(),
{
    if nodes.len() > 0 {
        let shorter = nodes.drop_last();
        lemma_open_dirs(shorter, visited, path);
        lemma_push_contains(visited, path, nodes.last().path);
        if !visited.contains(path) && (exists|k: int|
            0 <= k < nodes.len() && nodes[k].path == path && nodes[k].found is Directory) {
            let k = choose|k: int|
                0 <= k < nodes.len() && nodes[k].path == path && nodes[k].found is Directory;
            if k < nodes.len() - 1 {
                assert(shorter[k].path == path && shorter[k].found is Directory);
            }
        }
    }
}

proof fn lemma_sourced_push(
    nodes: Seq<NodeModel>,
    local: PathModel,
    earlier: Seq<PathModel>,
    x: PathModel,
    path: PathModel,
)
    ensures
        sourced(nodes, local, earlier, path) ==> sourced(nodes, local, earlier.push(x), path),
        lists(nodes, x, path) ==> sourced(nodes, local, earlier.push(x), path),
{
    if path != local {
        if sourced(nodes, local, earlier, path) {
            let i = choose|i: int| 0 <= i < earlier.len() && #[trigger] lists(nodes, earlier[i], path);
            assert(earlier.push(x)[i] == earlier[i]);
            assert(lists(nodes, earlier.push(x)[i], path));
        }
        if lists(nodes, x, path) {
            assert(earlier.push(x)[earlier.len() as int] == x);
            assert(lists(nodes, earlier.push(x)[earlier.len() as int], path));
        }
    }
}

proof fn lemma_requests_push(v: Seq<Request>, r: Request)
    ensures
        request_views(v.push(r)) == request_views(v).push(r@),
{
    assert(request_views(v.push(r)) =~= request_views(v).push(r@));
}

/// What one visit does to the facts that hold of a transfer under way.
proof fn lemma_visit(
    nodes: Seq<NodeModel>,
    local: PathModel,
    seen: Seq<PathModel>,
    stack: Seq<PathModel>,
    path: PathModel,
)
    requires
        seen.contains(local) || stack.contains(local),
        covered(nodes, seen, stack),
        descended(nodes, local, seen),
        announced(nodes, local, seen, stack),
        settled(stack, seen).len() > 0,
        path == settled(stack, seen).last(),
    ensures
        ({
            let extended = seen.push(path);
            let grown = settled(stack, seen).drop_last() + pushed(nodes, path, seen.push(path));
            &&& extended.contains(local) || grown.contains(local)
            &&& covered(nodes, extended, grown)
            &&& descended(nodes, local, extended)
            &&& announced(nodes, local, extended, grown)
            &&& grown.len() < stack.len() || found_at(nodes, path) is Directory
        }),
{
    let rest = settled(stack, seen);
    let popped = rest.drop_last();
    let added = pushed(nodes, path, seen.push(path));
    let extended = seen.push(path);
    let grown = popped + added;
    lemma_settled(stack, seen);
    assert(popped.push(path) =~= rest);
    assert(rest[rest.len() - 1] == stack[rest.len() - 1]);
    assert forall|e: PathModel| seen.contains(e) || stack.contains(e) implies extended.contains(e)
        || grown.contains(e) by {
        lemma_push_contains(seen, path, e);
        lemma_push_contains(popped, path, e);
        lemma_add_contains(popped, added, e);
        assert(stack.contains(e) ==> seen.contains(e) || rest.contains(e));
    }
    assert(covered(nodes, extended, grown)) by {
        assert forall|i: int, entry: PathModel|
            0 <= i < extended.len() && #[trigger] lists(nodes, extended[i], entry) implies extended.contains(entry)
            || grown.contains(entry) by {
            if i < seen.len() {
                assert(extended[i] == seen[i]);
                assert(lists(nodes, seen[i], entry));
                assert(seen.contains(entry) || stack.contains(entry));
            } else {
                let entries = entries_at(nodes, path);
                lemma_unvisited(entries, extended);
                assert(extended.contains(entry) || unvisited(entries, extended).contains(entry));
                lemma_add_contains(popped, added, entry);
            }
        }
    }
    assert(sourced(nodes, local, seen, path)) by {
        assert(stack[rest.len() - 1] == path);
    }
    assert(descended(nodes, local, extended)) by {
        assert forall|j: int| 0 <= j < extended.len() implies #[trigger] sourced(
            nodes,
            local,
            extended.take(j),
            extended[j],
        ) by {
            if j < seen.len() {
                assert(extended.take(j) =~= seen.take(j));
                assert(sourced(nodes, local, seen.take(j), seen[j]));
            } else {
                assert(extended.take(j) =~= seen);
            }
        }
    }
    assert(announced(nodes, local, extended, grown)) by {
        assert forall|k: int| 0 <= k < grown.len() implies sourced(
            nodes,
            local,
            extended,
            #[trigger] grown[k],
        ) by {
            lemma_sourced_push(nodes, local, seen, path, grown[k]);
            if k < popped.len() {
                assert(grown[k] == stack[k]);
                assert(sourced(nodes, local, seen, stack[k]));
            } else {
                let entries = entries_at(nodes, path);
                assert(added[k - popped.len()] == grown[k]);
                assert(added.contains(grown[k]));
                lemma_unvisited(entries, extended);
                assert(entries.contains(grown[k]));
                assert(lists(nodes, path, grown[k]));
            }
        }
    }
}

fn copy_paths(paths: &Vec<FsPath>) -> (r: Vec<FsPath>)
    ensures
        path_views(r@) == path_views(paths@),
{
    let mut out: Vec<FsPath> = Vec::new();
    let mut i: usize = 0;
    while i < paths.len()
        invariant
            i <= paths.len(),
            path_views(out@) =~= path_views(paths@).take(i as int),
        decreases paths.len() - i,
    {
        let copy = paths[i].duplicate();
        proof {
            lemma_paths_push(out@, copy);
        }
        out.push(copy);
        i += 1;
    }
    proof {
        assert(path_views(paths@).take(i as int) =~= path_views(paths@));
    }
    out
}

impl LocalTree {
    /// What lies at `path`, and the entries of the directory there.
    pub fn find(&self, path: &FsPath) -> (r: (Found, Vec<FsPath>))
        ensures
            r.0@ == found_at(self@, path@),
            path_views(r.1@) == entries_at(self@, path@),
    {
        let mut i: usize = 0;
        proof {
            assert(self@.skip(0) =~= self@);
        }
        while i < self.nodes.len()
            invariant
                i <= self.nodes.len(),
                node_at(self@, path@) == node_at(self@.skip(i as int), path@),
            decreases self.nodes.len() - i,
        {
            proof {
                assert(self@.skip(i as int).drop_first() =~= self@.skip(i + 1));
                assert(self@.skip(i as int)[0] == self.nodes@[i as int]@);
            }
            if self.nodes[i].path.same(path) {
                let found = self.nodes[i].found.duplicate();
                let entries = match found {
                    Found::Directory => copy_paths(&self.nodes[i].entries),
                    _ => Vec::new(),
                };
                proof {
                    assert(path_views(entries@) =~= entries_at(self@, path@));
                }
                return (found, entries);
            }
            i += 1;
        }
        let none: Vec<FsPath> = Vec::new();
        proof {
            assert(path_views(none@) =~= entries_at(self@, path@));
        }
        (Found::Other, none)
    }
}

/// Mirrors `local` into the remote directory `remote`, the local files being
/// as `tree` records them: gives the paths in the order of their visits, and
/// the requests to perform, in order. Whatever the tree holds, entries that
/// repeat or lead back included, the transfer ends and is complete.
pub fn send_files(tree: &LocalTree, local: FsPath, remote: FsPath) -> (r: (Vec<FsPath>, Vec<Request>))
    ensures
        mirrors(tree@, local@, remote@, path_views(r.0@), request_views(r.1@)),
{
    let ghost start = local@;
    let ghost target = remote@;
    let mut transfer = Transfer::new(local, remote);
    let mut requests: Vec<Request> = Vec::new();
    proof {
        assert(transfer.pending_paths()[0] == start);
        assert(request_views(requests@) =~= requests_of(tree@, target, transfer.visited_paths()));
    }
    loop
        invariant
            transfer.wf(),
            transfer.remote@ == target,
            request_views(requests@) == requests_of(tree@, target, transfer.visited_paths()),
            transfer.visited_paths().contains(start) || transfer.pending_paths().contains(start),
            covered(tree@, transfer.visited_paths(), transfer.pending_paths()),
            descended(tree@, start, transfer.visited_paths()),
            announced(tree@, start, transfer.visited_paths(), transfer.pending_paths()),
        ensures
            transfer.pending_paths().len() == 0,
        decreases open_dirs(tree@, transfer.visited_paths()), transfer.pending_paths().len(),
    {
        let ghost seen = transfer.visited_paths();
        let ghost stack = transfer.pending_paths();
        match transfer.next() {
            None => {
                proof {
                    lemma_settled(stack, seen);
                    assert forall|e: PathModel| stack.contains(e) implies seen.contains(e) by {
                        if settled(stack, seen).contains(e) {
                            assert(false);
                        }
                    }
                }
                break ;
            },
            Some(path) => {
                let (found, entries) = tree.find(&path);
                let ghost at = path@;
                proof {
                    lemma_visit(tree@, start, seen, stack, at);
                    lemma_open_dirs(tree@, seen, at);
                    if found@ is Directory {
                        lemma_found_directory(tree@, at);
                    }
                    assert(seen.push(at).drop_last() =~= seen);
                }
                match transfer.visit(path, found) {
                    Some(request) => {
                        proof {
                            lemma_requests_push(requests@, request);
                        }
                        requests.push(request);
                    },
                    None => {},
                }
                transfer.list(&entries);
            },
        }
    }
    proof {
        let visits = transfer.visited_paths();
        assert(transfer.pending_paths().len() == 0);
        assert forall|i: int, entry: PathModel|
            0 <= i < visits.len() && #[trigger] lists(tree@, visits[i], entry) implies visits.contains(
            entry,
        ) by {
            if transfer.pending_paths().contains(entry) {
                assert(false);
            }
        }
    }
    (transfer.visited, requests)
}

} // verus!
