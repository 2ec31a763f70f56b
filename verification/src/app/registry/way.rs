//! Where paths lead, piece by piece, and how the directories on the way are made.

use vstd::prelude::*;
use crate::app::registry::disk::{
    self, Disk, Node, NodeKind, NodeView, PathKey, PathView,
};
use crate::app::AppView;
use crate::text;
use vstd::string::*;

verus! {

/// One piece further. A piece that goes up leaves a directory that is known to be one, and the root
/// for itself; past anything else, a link above all, it leads to a place that is known by its
/// spelling alone.
pub open spec fn step(nodes: Seq<NodeView>, at: PathView, piece: Seq<char>) -> PathView {
    if piece != ".."@ {
        disk::child(at, piece)
    } else if at.pieces.len() == 0 {
        if at.absolute {
            at
        } else {
            disk::child(at, piece)
        }
    } else if at.pieces.last() != ".."@ && is_directory(nodes, at) {
        disk::first_pieces(at, at.pieces.len() - 1)
    } else {
        disk::child(at, piece)
    }
}

/// A directory, no link to one, is known to stand at a path.
pub open spec fn is_directory(nodes: Seq<NodeView>, at: PathView) -> bool {
    disk::node_at(nodes, at) matches Some(n) && n.kind == NodeKind::Directory
}

/// Where pieces lead from a place.
pub open spec fn reach(nodes: Seq<NodeView>, start: PathView, pieces: Seq<Seq<char>>) -> PathView
    decreases pieces.len(),
{
    if pieces.len() == 0 {
        start
    } else {
        step(nodes, reach(nodes, start, pieces.drop_last()), pieces.last())
    }
}

/// A directory is entered, and made where nothing stands in its place. Whether that went well.
pub open spec fn entered(nodes: Seq<NodeView>, at: PathView) -> (Seq<NodeView>, bool) {
    match disk::node_at(nodes, at) {
        None => (nodes.push(disk::bare(at)), true),
        Some(n) => (nodes, disk::leads_to_dir(n.kind)),
    }
}

/// What is known after the directories before the last piece were made, one after the other, and
/// whether all of them could be.
pub open spec fn led_to(nodes: Seq<NodeView>, start: PathView, pieces: Seq<Seq<char>>) -> (
    Seq<NodeView>,
    bool,
)
    decreases pieces.len(),
{
    if pieces.len() == 0 {
        if disk::way_is_blocked(nodes, start, 0) {
            (nodes, false)
        } else {
            (disk::with_way(nodes, start, 0), true)
        }
    } else {
        let (before, ok) = led_to(nodes, start, pieces.drop_last());
        if ok {
            entered(before, reach(before, start, pieces.drop_last()))
        } else {
            (before, false)
        }
    }
}

/// No piece goes up.
pub open spec fn is_level(pieces: Seq<Seq<char>>) -> bool {
    forall|i: int| 0 <= i < pieces.len() ==> #[trigger] pieces[i] != ".."@
}

/// Pieces of which none goes up lead where they say.
pub proof fn level_pieces_add_up(nodes: Seq<NodeView>, start: PathView, pieces: Seq<Seq<char>>)
    requires
        is_level(pieces),
    ensures
        reach(nodes, start, pieces) == (PathView {
            absolute: start.absolute,
            pieces: start.pieces + pieces,
        }),
    decreases pieces.len(),
{
    if pieces.len() == 0 {
        assert(start.pieces + pieces =~= start.pieces);
    } else {
        let init = pieces.drop_last();
        assert forall|i: int| 0 <= i < init.len() implies #[trigger] init[i] != ".."@ by {
            assert(init[i] == pieces[i]);
        }
        level_pieces_add_up(nodes, start, init);
        assert(pieces[pieces.len() - 1] == pieces.last());
        assert((start.pieces + init).push(pieces.last()) =~= start.pieces + pieces);
    }
}

/// Pieces can be followed in two parts.
pub proof fn reach_in_two_parts(
    nodes: Seq<NodeView>,
    start: PathView,
    a: Seq<Seq<char>>,
    b: Seq<Seq<char>>,
)
    ensures
        reach(nodes, start, a + b) == reach(nodes, reach(nodes, start, a), b),
    decreases b.len(),
{
    if b.len() == 0 {
        assert(a + b =~= a);
    } else {
        assert((a + b).drop_last() =~= a + b.drop_last());
        assert((a + b).last() == b.last());
        reach_in_two_parts(nodes, start, a, b.drop_last());
    }
}

/// Something is known to stand at each place on the way, the last one too.
pub open spec fn is_walked(nodes: Seq<NodeView>, start: PathView, pieces: Seq<Seq<char>>) -> bool
    decreases pieces.len(),
{
    &&& disk::node_at(nodes, reach(nodes, start, pieces)) is Some
    &&& pieces.len() > 0 ==> is_walked(nodes, start, pieces.drop_last())
}

/// A way that is known leads on as it did, whatever else becomes known.
proof fn walked_way_stays(
    nodes: Seq<NodeView>,
    n: NodeView,
    start: PathView,
    pieces: Seq<Seq<char>>,
)
    ensures
        pieces.len() == 0 || is_walked(nodes, start, pieces.drop_last()) ==> reach(
            nodes.push(n),
            start,
            pieces,
        ) == reach(nodes, start, pieces),
        is_walked(nodes, start, pieces) ==> is_walked(nodes.push(n), start, pieces),
    decreases pieces.len(),
{
    if pieces.len() > 0 {
        let init = pieces.drop_last();
        walked_way_stays(nodes, n, start, init);
        if is_walked(nodes, start, init) {
            if init.len() > 0 {
                assert(is_walked(nodes, start, init.drop_last()));
            }
            disk::node_at_pushed(nodes, n, reach(nodes, start, init));
        }
    }
    disk::node_at_pushed(nodes, n, reach(nodes, start, pieces));
}

/// Where the directories before the last piece could be made, they are there.
pub proof fn led_way_is_walked(nodes: Seq<NodeView>, start: PathView, pieces: Seq<Seq<char>>)
    requires
        led_to(nodes, start, pieces).1,
    ensures
        pieces.len() > 0 ==> is_walked(led_to(nodes, start, pieces).0, start, pieces.drop_last()),
    decreases pieces.len(),
{
    if pieces.len() > 0 {
        let init = pieces.drop_last();
        led_way_is_walked(nodes, start, init);
        let before = led_to(nodes, start, init).0;
        let at = reach(before, start, init);
        if disk::node_at(before, at) is None {
            let n = disk::bare(at);
            walked_way_stays(before, n, start, init);
            disk::node_at_pushed(before, n, at);
            if init.len() > 0 {
                walked_way_stays(before, n, start, init.drop_last());
            }
        }
    }
}

/// What becomes known behind the last place of a known way does not change where it leads.
pub proof fn last_place_stays(
    nodes: Seq<NodeView>,
    n: NodeView,
    start: PathView,
    pieces: Seq<Seq<char>>,
)
    requires
        pieces.len() > 0 ==> is_walked(nodes, start, pieces.drop_last()),
    ensures
        reach(nodes.push(n), start, pieces) == reach(nodes, start, pieces),
{
    walked_way_stays(nodes, n, start, pieces);
}

/// A manifest that is written changes no way.
pub proof fn manifest_changes_no_way(
    nodes: Seq<NodeView>,
    p: PathView,
    m: AppView,
    start: PathView,
    pieces: Seq<Seq<char>>,
)
    ensures
        reach(disk::with_manifest(nodes, p, m), start, pieces) == reach(nodes, start, pieces),
    decreases pieces.len(),
{
    if pieces.len() > 0 {
        let init = pieces.drop_last();
        manifest_changes_no_way(nodes, p, m, start, init);
        disk::new_manifest_is_found(nodes, p, m, reach(nodes, start, init));
        disk::node_at_is_there(nodes, reach(nodes, start, init));
    }
}

/// Making the way changes nothing of what stands there, and what it adds is bare.
pub proof fn led_way_keeps_the_rest(
    nodes: Seq<NodeView>,
    start: PathView,
    pieces: Seq<Seq<char>>,
    q: PathView,
)
    ensures
        disk::node_at(nodes, q) is Some ==> disk::node_at(led_to(nodes, start, pieces).0, q)
            == disk::node_at(nodes, q),
    decreases pieces.len(),
{
    if pieces.len() == 0 {
        disk::way_keeps_the_rest(nodes, start, 0, q);
    } else {
        let init = pieces.drop_last();
        led_way_keeps_the_rest(nodes, start, init, q);
        let before = led_to(nodes, start, init).0;
        let at = reach(before, start, init);
        disk::node_at_pushed(before, disk::bare(at), q);
    }
}

/// A way that could not be made to its end stays as it was left.
proof fn failed_way_ends(
    nodes: Seq<NodeView>,
    start: PathView,
    pieces: Seq<Seq<char>>,
    k: int,
)
    requires
        0 <= k <= pieces.len(),
        !led_to(nodes, start, pieces.take(k)).1,
    ensures
        led_to(nodes, start, pieces) == led_to(nodes, start, pieces.take(k)),
    decreases pieces.len(),
{
    if k == pieces.len() {
        assert(pieces.take(k) =~= pieces);
    } else {
        let init = pieces.drop_last();
        assert(init.take(k) =~= pieces.take(k));
        failed_way_ends(nodes, start, init, k);
    }
}

/// Where the first `n` pieces of a path lead from a place.
pub fn reached(disk: &Disk, start: &PathKey, p: &PathKey, n: usize) -> (k: PathKey)
    requires
        n <= p@.pieces.len(),
    ensures
        k@ == reach(disk@, start@, p@.pieces.take(n as int)),
{
    let mut at = start.copy();
    let mut i: usize = 0;
    while i < n
        invariant
            i <= n,
            n <= p@.pieces.len(),
            at@ == reach(disk@, start@, p@.pieces.take(i as int)),
        decreases n - i,
    {
        let ghost more = p@.pieces.take(i as int + 1);
        assert(more.drop_last() =~= p@.pieces.take(i as int));
        assert(more.last() == p@.pieces[i as int]);
        let piece = p.piece(i);
        let len = at.len();
        if !text::same(piece, "..") {
            at = at.child(piece);
        } else if len == 0 {
            if !at.is_absolute() {
                at = at.child(piece);
            }
        } else {
            let up = !text::same(at.last(), "..") && match disk.find(&at) {
                Some(n) => n.kind() == NodeKind::Directory,
                None => false,
            };
            at = if up {
                at.first(len - 1)
            } else {
                at.child(piece)
            };
        }
        i = i + 1;
    }
    at
}

/// Makes the directories before the last of the first `n` pieces of a path. Whether all of them
/// could be made.
pub fn lead(disk: &mut Disk, start: &PathKey, p: &PathKey, n: usize) -> (ok: bool)
    requires
        n <= p@.pieces.len(),
    ensures
        (final(disk)@, ok) == led_to(old(disk)@, start@, p@.pieces.take(n as int)),
{
    let ghost all = p@.pieces.take(n as int);
    let ghost nodes = disk@;
    assert(p@.pieces.take(0) =~= Seq::empty());
    assert(all.take(0) =~= Seq::empty());
    if disk.is_blocked(start, 0) {
        proof {
            failed_way_ends(nodes, start@, all, 0);
        }
        return false;
    }
    disk.make_way(start, 0);
    let mut i: usize = 0;
    while i < n
        invariant
            i <= n,
            n <= p@.pieces.len(),
            nodes == old(disk)@,
            all == p@.pieces.take(n as int),
            (disk@, true) == led_to(nodes, start@, p@.pieces.take(i as int)),
        decreases n - i,
    {
        let ghost more = p@.pieces.take(i as int + 1);
        assert(more.drop_last() =~= p@.pieces.take(i as int));
        assert(all.take(i as int + 1) =~= more);
        let at = reached(disk, start, p, i);
        let (known, is_dir) = match disk.find(&at) {
            Some(n) => (true, n.is_dir()),
            None => (false, true),
        };
        if !known {
            disk.push(Node::new(at, NodeKind::Directory, true, None));
        } else if !is_dir {
            proof {
                failed_way_ends(nodes, start@, all, i as int + 1);
            }
            return false;
        }
        i = i + 1;
    }
    true
}

/// To go into a directory and up again is to stay.
pub proof fn in_and_up_leads_back(
    nodes: Seq<NodeView>,
    start: PathView,
    pieces: Seq<Seq<char>>,
    name: Seq<char>,
)
    requires
        name != ".."@,
        is_directory(nodes, disk::child(reach(nodes, start, pieces), name)),
    ensures
        reach(nodes, start, pieces.push(name).push(".."@)) == reach(nodes, start, pieces),
{
    let at = reach(nodes, start, pieces);
    assert(pieces.push(name).drop_last() =~= pieces);
    assert(pieces.push(name).push(".."@).drop_last() =~= pieces.push(name));
    let inside = disk::child(at, name);
    reveal_with_fuel(reach, 3);
    assert(reach(nodes, start, pieces.push(name)) == inside);
    assert(inside.pieces.take(inside.pieces.len() - 1) =~= at.pieces);
    assert(step(nodes, inside, ".."@) =~= at);
}

/// Only what leads to a directory is entered, be it by a link; a file or a dead link is not, and
/// where nothing is a directory is made.
pub proof fn only_directories_are_entered(nodes: Seq<NodeView>, at: PathView)
    ensures
        match disk::node_at(nodes, at) {
            None => entered(nodes, at).1 && disk::dir_at(entered(nodes, at).0, at) is Some,
            Some(n) => entered(nodes, at).0 == nodes && (entered(nodes, at).1 <==> n.kind
                == crate::app::registry::disk::NodeKind::Directory || n.kind
                == crate::app::registry::disk::NodeKind::LinkToDirectory),
        },
{
    disk::node_at_pushed(nodes, disk::bare(at), at);
}

} // verus!
