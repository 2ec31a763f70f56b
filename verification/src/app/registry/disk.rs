//! What is known to stand at paths.

use vstd::prelude::*;
use crate::app::{App, AppView};
use crate::text;
use vstd::string::*;

verus! {

// ---------------------------------------------------------------------------
// Paths
// ---------------------------------------------------------------------------

/// A text cut at its slashes.
pub open spec fn cut(s: Seq<char>) -> Seq<Seq<char>>
    decreases s.len(),
{
    if s.len() == 0 {
        seq![Seq::empty()]
    } else {
        let before = cut(s.drop_last());
        if s.last() == '/' {
            before.push(Seq::empty())
        } else {
            before.drop_last().push(before.last().push(s.last()))
        }
    }
}

/// A piece of a path that leads somewhere: not an empty one, nor the directory itself.
pub open spec fn leads_on(p: Seq<char>) -> bool {
    p.len() > 0 && p != "."@
}

/// The pieces that lead somewhere, in their order.
pub open spec fn leading(list: Seq<Seq<char>>) -> Seq<Seq<char>>
    decreases list.len(),
{
    if list.len() == 0 {
        Seq::empty()
    } else if leads_on(list.last()) {
        leading(list.drop_last()).push(list.last())
    } else {
        leading(list.drop_last())
    }
}

/// A path: whether it starts at the root, and its pieces. A piece that goes up is a piece like any
/// other here.
#[verifier::ext_equal]
pub struct PathView {
    pub absolute: bool,
    pub pieces: Seq<Seq<char>>,
}

/// The path that a text is.
pub open spec fn path_of(s: Seq<char>) -> PathView {
    PathView { absolute: s.len() > 0 && s[0] == '/', pieces: leading(cut(s)) }
}

/// A path that can only lead to a directory, by its end.
pub open spec fn asks_for_dir(s: Seq<char>) -> bool {
    !leads_on(cut(s).last())
}

/// The last piece of a list that is not empty.
pub open spec fn last_named(list: Seq<Seq<char>>) -> Seq<char>
    decreases list.len(),
{
    if list.len() == 0 {
        Seq::empty()
    } else if list.last().len() > 0 {
        list.last()
    } else {
        last_named(list.drop_last())
    }
}

/// A path that comes back, at its end, to the directory that it has reached. No directory can be
/// made under such a name.
pub open spec fn ends_where_it_is(s: Seq<char>) -> bool {
    last_named(cut(s)) == "."@
}

/// A path whose end is no name: nothing can be moved from there.
pub open spec fn ends_in_no_name(s: Seq<char>) -> bool {
    ends_where_it_is(s) || last_named(cut(s)) == ".."@
}

/// A path one piece further.
pub open spec fn child(p: PathView, name: Seq<char>) -> PathView {
    PathView { absolute: p.absolute, pieces: p.pieces.push(name) }
}

/// `q` lies below `p`.
pub open spec fn below(p: PathView, q: PathView) -> bool {
    &&& p.absolute == q.absolute
    &&& p.pieces.len() < q.pieces.len()
    &&& q.pieces.take(p.pieces.len() as int) == p.pieces
}

/// The first pieces of a path.
pub open spec fn first_pieces(p: PathView, n: int) -> PathView {
    PathView { absolute: p.absolute, pieces: p.pieces.take(n) }
}

proof fn cut_is_not_empty(s: Seq<char>)
    ensures
        cut(s).len() > 0,
    decreases s.len(),
{
    if s.len() > 0 {
        cut_is_not_empty(s.drop_last());
    }
}

/// Two texts with a slash between them are cut there.
proof fn cut_at_slash(a: Seq<char>, b: Seq<char>)
    ensures
        cut(a + seq!['/'] + b) == cut(a) + cut(b),
    decreases b.len(),
{
    let s = a + seq!['/'] + b;
    cut_is_not_empty(a);
    if b.len() == 0 {
        assert(s.drop_last() =~= a);
        assert(s.last() == '/');
        assert(cut(a).push(Seq::empty()) =~= cut(a) + cut(b));
    } else {
        cut_is_not_empty(b.drop_last());
        cut_at_slash(a, b.drop_last());
        assert(s.drop_last() =~= a + seq!['/'] + b.drop_last());
        assert(s.last() == b.last());
        let before = cut(b.drop_last());
        let whole = cut(a) + before;
        assert(whole.last() == before.last());
        assert(whole.drop_last() =~= cut(a) + before.drop_last());
        if b.last() == '/' {
            assert(whole.push(Seq::empty()) =~= cut(a) + before.push(Seq::empty()));
        } else {
            let more = before.last().push(b.last());
            assert(whole.drop_last().push(more) =~= cut(a) + before.drop_last().push(more));
        }
    }
}

proof fn leading_concat(a: Seq<Seq<char>>, b: Seq<Seq<char>>)
    ensures
        leading(a + b) == leading(a) + leading(b),
    decreases b.len(),
{
    if b.len() == 0 {
        assert(a + b =~= a);
        assert(leading(a) + leading(b) =~= leading(a));
    } else {
        assert((a + b).drop_last() =~= a + b.drop_last());
        assert((a + b).last() == b.last());
        leading_concat(a, b.drop_last());
        assert(leading(a + b) =~= leading(a) + leading(b));
    }
}

/// A path as seen from a directory has the directory's pieces before its own.
pub proof fn joined_pieces(dir: Seq<char>, name: Seq<char>)
    requires
        dir.len() > 0,
        !(name.len() > 0 && name[0] == '/'),
    ensures
        path_of(text::path_join(dir, name)) == (PathView {
            absolute: path_of(dir).absolute,
            pieces: path_of(dir).pieces + path_of(name).pieces,
        }),
{
    reveal_strlit("/");
    let slash = seq!['/'];
    assert("/"@ =~= slash);
    let s = text::path_join(dir, name);
    if dir.last() == '/' {
        let init = dir.drop_last();
        cut_at_slash(init, name);
        assert(init + slash + name =~= s);
        leading_concat(cut(init), cut(name));
        cut_at_slash(init, Seq::empty());
        assert(init + slash + Seq::<char>::empty() =~= dir);
        leading_concat(cut(init), cut(Seq::empty()));
        let one = cut(Seq::<char>::empty());
        assert(one.drop_last() =~= Seq::<Seq<char>>::empty());
        reveal_with_fuel(leading, 2);
        assert(leading(one) =~= Seq::<Seq<char>>::empty());
        assert(leading(cut(init)) + leading(one) =~= leading(cut(init)));
    } else {
        cut_at_slash(dir, name);
        assert(dir + slash + name =~= s);
        leading_concat(cut(dir), cut(name));
    }
    assert(s[0] == dir[0]);
}

/// A path that ends in a name has that name for its last piece.
pub proof fn last_of_joined(dir: Seq<char>, name: Seq<char>)
    requires
        leads_on(name),
        forall|i: int| 0 <= i < name.len() ==> #[trigger] name[i] != '/',
    ensures
        cut(text::path_join(dir, name)).last() == name,
{
    reveal_strlit("/");
    let slash = seq!['/'];
    assert("/"@ =~= slash);
    uncut(name);
    let s = text::path_join(dir, name);
    assert(name[0] != '/');
    if dir.len() == 0 {
        assert(s =~= name);
    } else if dir.last() == '/' {
        cut_at_slash(dir.drop_last(), name);
        assert(dir.drop_last() + slash + name =~= s);
    } else {
        cut_at_slash(dir, name);
        assert(dir + slash + name =~= s);
    }
}

/// A name without a slash is one piece.
pub proof fn plain_name_is_one_piece(name: Seq<char>)
    requires
        leads_on(name),
        forall|i: int| 0 <= i < name.len() ==> #[trigger] name[i] != '/',
    ensures
        path_of(name) == (PathView { absolute: false, pieces: seq![name] }),
{
    uncut(name);
    let one = seq![name];
    assert(one.drop_last() =~= Seq::<Seq<char>>::empty());
    reveal_with_fuel(leading, 2);
    assert(leading(one) =~= one);
}

proof fn uncut(name: Seq<char>)
    requires
        forall|i: int| 0 <= i < name.len() ==> #[trigger] name[i] != '/',
    ensures
        cut(name) == seq![name],
    decreases name.len(),
{
    if name.len() == 0 {
        assert(name =~= Seq::<char>::empty());
    } else {
        let init = name.drop_last();
        assert forall|i: int| 0 <= i < init.len() implies #[trigger] init[i] != '/' by {
            assert(init[i] == name[i]);
        }
        uncut(init);
        assert(name.last() == name[name.len() - 1]);
        assert(init.push(name.last()) =~= name);
        assert(cut(name) =~= seq![name]);
    }
}

/// A path by which what stands there is known.
#[derive(Debug, Clone)]
pub struct PathKey {
    absolute: bool,
    pieces: Vec<String>,
}

impl View for PathKey {
    type V = PathView;

    closed spec fn view(&self) -> PathView {
        PathView { absolute: self.absolute, pieces: text::views(self.pieces@) }
    }
}

fn is_leading(p: &str) -> (r: bool)
    ensures
        r == leads_on(p@),
{
    !p.is_empty() && !text::same(p, ".")
}

/// Whether a path can only lead to a directory, by its end.
pub fn wants_dir(s: &str) -> (r: bool)
    ensures
        r == asks_for_dir(s@),
{
    let chars = text::to_chars(s);
    let mut piece: String = String::new();
    let mut i: usize = 0;
    assert(s@.take(0) =~= Seq::empty());
    while i < chars.len()
        invariant
            i <= chars.len(),
            chars@ == s@,
            piece@ == cut(s@.take(i as int)).last(),
        decreases chars.len() - i,
    {
        assert(s@.take(i as int + 1).drop_last() =~= s@.take(i as int));
        assert(s@.take(i as int + 1).last() == chars[i as int]);
        if chars[i] == '/' {
            piece = String::new();
            assert(piece@ =~= cut(s@.take(i as int + 1)).last());
        } else {
            piece.push(chars[i]);
        }
        i = i + 1;
    }
    assert(s@.take(i as int) =~= s@);
    !is_leading(piece.as_str())
}

fn last_piece(s: &str) -> (r: String)
    ensures
        r@ == last_named(cut(s@)),
{
    let chars = text::to_chars(s);
    let mut named: String = String::new();
    let mut piece: String = String::new();
    let mut i: usize = 0;
    assert(s@.take(0) =~= Seq::empty());
    assert(cut(s@.take(0)).drop_last() =~= Seq::<Seq<char>>::empty());
    while i < chars.len()
        invariant
            i <= chars.len(),
            chars@ == s@,
            cut(s@.take(i as int)).len() > 0,
            named@ == last_named(cut(s@.take(i as int)).drop_last()),
            piece@ == cut(s@.take(i as int)).last(),
        decreases chars.len() - i,
    {
        let ghost before = cut(s@.take(i as int));
        let ghost after = cut(s@.take(i as int + 1));
        assert(s@.take(i as int + 1).drop_last() =~= s@.take(i as int));
        assert(s@.take(i as int + 1).last() == chars[i as int]);
        if chars[i] == '/' {
            assert(after.drop_last() =~= before);
            if !piece.as_str().is_empty() {
                named = piece;
            }
            piece = String::new();
            assert(piece@ =~= after.last());
        } else {
            piece.push(chars[i]);
            assert(after.drop_last() =~= before.drop_last());
        }
        i = i + 1;
    }
    assert(s@.take(i as int) =~= s@);
    if piece.as_str().is_empty() {
        named
    } else {
        piece
    }
}

/// Whether a path comes back, at its end, to the directory that it has reached.
pub fn stays(s: &str) -> (r: bool)
    ensures
        r == ends_where_it_is(s@),
{
    let last = last_piece(s);
    text::same(last.as_str(), ".")
}

/// Whether the end of a path is no name.
pub fn is_unnamed(s: &str) -> (r: bool)
    ensures
        r == ends_in_no_name(s@),
{
    let last = last_piece(s);
    text::same(last.as_str(), ".") || text::same(last.as_str(), "..")
}

impl PathKey {
    /// The path that a text is.
    pub fn of(s: &str) -> (k: Self)
        ensures
            k@ == path_of(s@),
    {
        let chars = text::to_chars(s);
        let mut pieces: Vec<String> = Vec::new();
        let mut piece: String = String::new();
        let mut i: usize = 0;
        assert(s@.take(0) =~= Seq::empty());
        assert(cut(s@.take(0)).drop_last() =~= Seq::<Seq<char>>::empty());
        assert(text::views(pieces@) =~= Seq::empty());
        while i < chars.len()
            invariant
                i <= chars.len(),
                chars@ == s@,
                cut(s@.take(i as int)).len() > 0,
                text::views(pieces@) == leading(cut(s@.take(i as int)).drop_last()),
                piece@ == cut(s@.take(i as int)).last(),
            decreases chars.len() - i,
        {
            let ghost before = cut(s@.take(i as int));
            let ghost after = cut(s@.take(i as int + 1));
            assert(s@.take(i as int + 1).drop_last() =~= s@.take(i as int));
            assert(s@.take(i as int + 1).last() == chars[i as int]);
            if chars[i] == '/' {
                assert(after.drop_last() =~= before);
                if is_leading(piece.as_str()) {
                    let ghost list = pieces@;
                    pieces.push(piece);
                    assert(text::views(pieces@) =~= text::views(list).push(before.last()));
                }
                piece = String::new();
                assert(piece@ =~= after.last());
            } else {
                piece.push(chars[i]);
                assert(after.drop_last() =~= before.drop_last());
            }
            i = i + 1;
        }
        assert(s@.take(i as int) =~= s@);
        if is_leading(piece.as_str()) {
            let ghost list = pieces@;
            let ghost last = piece@;
            pieces.push(piece);
            assert(text::views(pieces@) =~= text::views(list).push(last));
        }
        PathKey { absolute: chars.len() > 0 && chars[0] == '/', pieces }
    }

    pub fn same(&self, other: &PathKey) -> (r: bool)
        ensures
            r == (self@ == other@),
    {
        if self.absolute != other.absolute || self.pieces.len() != other.pieces.len() {
            assert(self@.pieces.len() == self.pieces@.len());
            assert(other@.pieces.len() == other.pieces@.len());
            return false;
        }
        self.starts_alike(other, self.pieces.len())
    }

    fn starts_alike(&self, other: &PathKey, n: usize) -> (r: bool)
        requires
            n <= self@.pieces.len(),
            n <= other@.pieces.len(),
            self@.absolute == other@.absolute,
        ensures
            r == (self@.pieces.take(n as int) == other@.pieces.take(n as int)),
            r && n == self@.pieces.len() && n == other@.pieces.len() ==> self@ == other@,
    {
        let mut i: usize = 0;
        while i < n
            invariant
                i <= n,
                n <= self.pieces@.len(),
                n <= other.pieces@.len(),
                forall|k: int| 0 <= k < i ==> #[trigger] self@.pieces[k] == other@.pieces[k],
            decreases n - i,
        {
            if !text::same(self.pieces[i].as_str(), other.pieces[i].as_str()) {
                assert(self@.pieces.take(n as int)[i as int] != other@.pieces.take(n as int)[
                    i as int
                ]);
                return false;
            }
            assert(self@.pieces[i as int] == other@.pieces[i as int]);
            i = i + 1;
        }
        assert(self@.pieces.take(n as int) =~= other@.pieces.take(n as int));
        proof {
            if n == self@.pieces.len() && n == other@.pieces.len() {
                assert(self@.pieces =~= other@.pieces);
            }
        }
        true
    }

    /// Whether a path lies below this one.
    pub fn is_above(&self, other: &PathKey) -> (r: bool)
        ensures
            r == below(self@, other@),
    {
        assert(self@.pieces.len() == self.pieces@.len());
        assert(other@.pieces.len() == other.pieces@.len());
        if self.absolute != other.absolute || self.pieces.len() >= other.pieces.len() {
            return false;
        }
        assert(self@.pieces.take(self@.pieces.len() as int) =~= self@.pieces);
        self.starts_alike(other, self.pieces.len())
    }

    /// How many pieces the path has.
    pub fn len(&self) -> (n: usize)
        ensures
            n == self@.pieces.len(),
    {
        assert(self@.pieces.len() == self.pieces@.len());
        self.pieces.len()
    }

    /// The last piece.
    pub fn last(&self) -> (r: &str)
        requires
            self@.pieces.len() > 0,
        ensures
            r@ == self@.pieces.last(),
    {
        assert(self@.pieces.len() == self.pieces@.len());
        self.pieces[self.pieces.len() - 1].as_str()
    }

    pub fn piece(&self, i: usize) -> (r: &str)
        requires
            i < self@.pieces.len(),
        ensures
            r@ == self@.pieces[i as int],
    {
        assert(self@.pieces.len() == self.pieces@.len());
        self.pieces[i].as_str()
    }

    pub fn is_absolute(&self) -> (r: bool)
        ensures
            r == self@.absolute,
    {
        self.absolute
    }

    /// The root.
    pub fn root() -> (k: Self)
        ensures
            k@ == (PathView { absolute: true, pieces: Seq::empty() }),
    {
        let k = PathKey { absolute: true, pieces: Vec::new() };
        assert(k@.pieces =~= Seq::empty());
        k
    }

    /// This path and one piece more.
    pub fn child(self, name: &str) -> (k: Self)
        ensures
            k@ == child(self@, name@),
    {
        let ghost list = self.pieces@;
        let mut pieces = self.pieces;
        pieces.push(name.to_string());
        assert(text::views(pieces@) =~= text::views(list).push(name@));
        PathKey { absolute: self.absolute, pieces }
    }

    /// The path of the first pieces.
    pub fn first(&self, n: usize) -> (k: Self)
        requires
            n <= self@.pieces.len(),
        ensures
            k@ == first_pieces(self@, n as int),
    {
        let mut pieces: Vec<String> = Vec::new();
        let mut i: usize = 0;
        assert(self@.pieces.len() == self.pieces@.len());
        assert(text::views(pieces@) =~= self@.pieces.take(0));
        while i < n
            invariant
                i <= n,
                n <= self.pieces@.len(),
                text::views(pieces@) == self@.pieces.take(i as int),
            decreases n - i,
        {
            let ghost list = pieces@;
            let piece = self.pieces[i].clone();
            let ghost view = piece@;
            pieces.push(piece);
            assert(text::views(pieces@) =~= text::views(list).push(view));
            assert(self@.pieces.take(i as int + 1) =~= self@.pieces.take(i as int).push(view));
            i = i + 1;
        }
        PathKey { absolute: self.absolute, pieces }
    }

    pub fn copy(&self) -> (k: Self)
        ensures
            k@ == self@,
    {
        let k = self.first(self.len());
        assert(self@.pieces.take(self@.pieces.len() as int) =~= self@.pieces);
        k
    }

    /// This path, which lies at or below `from`, as it is after what stands at `from` was moved.
    fn rebased(&self, from: &PathKey, to: &PathKey) -> (k: Self)
        requires
            from@.pieces.len() <= self@.pieces.len(),
        ensures
            k@ == rebased(self@, from@, to@),
    {
        let mut k = to.copy();
        let mut i: usize = from.len();
        let ghost rest = self@.pieces.skip(from@.pieces.len() as int);
        assert(self@.pieces.len() == self.pieces@.len());
        assert(k@.pieces =~= to@.pieces + rest.take(0));
        while i < self.pieces.len()
            invariant
                from@.pieces.len() <= i <= self.pieces@.len(),
                self@.pieces.len() == self.pieces@.len(),
                rest == self@.pieces.skip(from@.pieces.len() as int),
                k@.absolute == to@.absolute,
                k@.pieces == to@.pieces + rest.take(i - from@.pieces.len()),
            decreases self.pieces.len() - i,
        {
            let ghost n = i - from@.pieces.len();
            let ghost list = k.pieces@;
            let piece = self.pieces[i].clone();
            let ghost view = piece@;
            k.pieces.push(piece);
            assert(text::views(k.pieces@) =~= text::views(list).push(view));
            assert(rest.take(n + 1) =~= rest.take(n).push(view));
            assert(k@.pieces =~= to@.pieces + rest.take(n + 1));
            i = i + 1;
        }
        assert(rest.take(rest.len() as int) =~= rest);
        k
    }
}

/// A path at or below `from` as it is after what stands at `from` was moved.
pub open spec fn rebased(p: PathView, from: PathView, to: PathView) -> PathView {
    PathView { absolute: to.absolute, pieces: to.pieces + p.pieces.skip(from.pieces.len() as int) }
}

// ---------------------------------------------------------------------------
// What stands at a path
// ---------------------------------------------------------------------------

/// What stands at a path, and what it leads to where it is a link.
#[derive(Debug, Clone, Copy, PartialEq, Eq, Structural)]
pub enum NodeKind {
    Directory,
    File,
    LinkToDirectory,
    LinkToFile,
    /// A link to what is not there.
    DeadLink,
}

/// What leads to a directory.
pub open spec fn leads_to_dir(kind: NodeKind) -> bool {
    kind == NodeKind::Directory || kind == NodeKind::LinkToDirectory
}

/// Something that stands at a path: what it is, whether it has nothing in it beyond what is known to
/// stand below it, and the app that its manifest describes, where there is one that can be read.
#[derive(Debug)]
pub struct Node {
    at: PathKey,
    kind: NodeKind,
    empty: bool,
    manifest: Option<App>,
}

/// What such a thing is.
pub struct NodeView {
    pub at: PathView,
    pub kind: NodeKind,
    pub empty: bool,
    pub manifest: Option<AppView>,
}

impl View for Node {
    type V = NodeView;

    closed spec fn view(&self) -> NodeView {
        NodeView {
            at: self.at@,
            kind: self.kind,
            empty: self.empty,
            manifest: match self.manifest {
                Some(a) => Some(a@),
                None => None,
            },
        }
    }
}

/// What a list of such things is.
pub open spec fn node_views(nodes: Seq<Node>) -> Seq<NodeView> {
    nodes.map_values(|n: Node| n@)
}

/// The first thing that is known to stand at a path.
pub open spec fn node_at(nodes: Seq<NodeView>, p: PathView) -> Option<NodeView>
    decreases nodes.len(),
{
    if nodes.len() == 0 {
        None
    } else {
        let before = node_at(nodes.drop_last(), p);
        if before is Some {
            before
        } else if nodes.last().at == p {
            Some(nodes.last())
        } else {
            None
        }
    }
}

/// The directory that a path leads to, where it leads to one.
pub open spec fn dir_at(nodes: Seq<NodeView>, p: PathView) -> Option<NodeView> {
    match node_at(nodes, p) {
        Some(n) => if leads_to_dir(n.kind) {
            Some(n)
        } else {
            None
        },
        None => None,
    }
}

/// Something is found by a path that leads to a place, as the path is written.
pub open spec fn is_found(nodes: Seq<NodeView>, at: PathView, path: Seq<char>) -> bool {
    node_at(nodes, at) matches Some(n) && n.kind != NodeKind::DeadLink && (asks_for_dir(path)
        ==> leads_to_dir(n.kind))
}

/// Something is known to stand below a path.
pub open spec fn has_below(nodes: Seq<NodeView>, p: PathView) -> bool {
    exists|i: int| 0 <= i < nodes.len() && below(p, (#[trigger] nodes[i]).at)
}

/// A bare directory.
pub open spec fn bare(p: PathView) -> NodeView {
    NodeView { at: p, kind: NodeKind::Directory, empty: true, manifest: None }
}

/// What is always there: the root, and the directory from which other paths start.
pub open spec fn always_there() -> Seq<NodeView> {
    seq![
        bare(PathView { absolute: true, pieces: Seq::empty() }),
        bare(PathView { absolute: false, pieces: Seq::empty() }),
    ]
}

/// What is known after the directories on the way to a path were made, from that of the first `n`
/// pieces on.
pub open spec fn with_way(nodes: Seq<NodeView>, p: PathView, n: int) -> Seq<NodeView>
    decreases p.pieces.len() - n,
{
    if n < 0 || n >= p.pieces.len() {
        nodes
    } else {
        let here = first_pieces(p, n);
        with_way(
            if node_at(nodes, here) is None {
                nodes.push(bare(here))
            } else {
                nodes
            },
            p,
            n + 1,
        )
    }
}

/// On the way to a path, from that of the first `n` pieces on, stands something that leads to no
/// directory.
pub open spec fn way_is_blocked(nodes: Seq<NodeView>, p: PathView, n: int) -> bool {
    exists|m: int|
        n <= m < p.pieces.len() && node_at(nodes, #[trigger] first_pieces(p, m)) is Some && dir_at(
            nodes,
            first_pieces(p, m),
        ) is None
}

/// What stands at a path may be moved to another: onto itself, to where nothing is, a directory
/// onto an empty one, and a link onto what is no directory. No directory moves below itself, and
/// what has no name of its own stays.
pub open spec fn may_move(nodes: Seq<NodeView>, from: NodeView, to: PathView) -> bool {
    if from.at.pieces.len() == 0 {
        false
    } else if to == from.at {
        true
    } else if from.kind == NodeKind::Directory && below(from.at, to) {
        false
    } else {
        match node_at(nodes, to) {
            None => true,
            Some(n) => if from.kind == NodeKind::Directory {
                n.kind == NodeKind::Directory && n.empty && !has_below(nodes, to)
            } else {
                n.kind != NodeKind::Directory
            },
        }
    }
}

/// What is known after what stands at a path was moved, with all that is below it. What stood in
/// its new place is gone.
pub open spec fn moved(nodes: Seq<NodeView>, from: PathView, to: PathView) -> Seq<NodeView>
    decreases nodes.len(),
{
    if nodes.len() == 0 {
        nodes
    } else {
        let before = moved(nodes.drop_last(), from, to);
        let n = nodes.last();
        if n.at == from || below(from, n.at) {
            before.push(NodeView { at: rebased(n.at, from, to), ..n })
        } else if n.at == to || below(to, n.at) {
            before
        } else {
            before.push(n)
        }
    }
}

/// What is known after the manifest of the first thing at a path was written anew.
pub open spec fn with_manifest(nodes: Seq<NodeView>, p: PathView, m: AppView) -> Seq<NodeView>
    decreases nodes.len(),
{
    if nodes.len() == 0 {
        nodes
    } else if node_at(nodes.drop_last(), p) is Some {
        with_manifest(nodes.drop_last(), p, m).push(nodes.last())
    } else if nodes.last().at == p {
        nodes.drop_last().push(NodeView { manifest: Some(m), empty: false, ..nodes.last() })
    } else {
        nodes
    }
}

/// The manifest that was written anew is found, and nothing else is changed.
pub proof fn new_manifest_is_found(nodes: Seq<NodeView>, p: PathView, m: AppView, q: PathView)
    ensures
        node_at(with_manifest(nodes, p, m), q) == (if q == p {
            match node_at(nodes, p) {
                Some(n) => Some(NodeView { manifest: Some(m), empty: false, ..n }),
                None => None,
            }
        } else {
            node_at(nodes, q)
        }),
    decreases nodes.len(),
{
    if nodes.len() > 0 {
        let init = nodes.drop_last();
        new_manifest_is_found(init, p, m, q);
        assert(init.push(nodes.last()) =~= nodes);
        if node_at(init, p) is Some {
            node_at_pushed(with_manifest(init, p, m), nodes.last(), q);
        } else if nodes.last().at == p {
            node_at_pushed(init, NodeView { manifest: Some(m), empty: false, ..nodes.last() }, q);
        }
    }
}

proof fn with_manifest_at(nodes: Seq<NodeView>, p: PathView, m: AppView, i: int)
    requires
        0 <= i < nodes.len(),
        nodes[i].at == p,
        node_at(nodes.take(i), p) is None,
    ensures
        with_manifest(nodes, p, m) == nodes.update(i, NodeView { manifest: Some(m), empty: false, ..nodes[i] }),
    decreases nodes.len(),
{
    let init = nodes.drop_last();
    if i == nodes.len() - 1 {
        assert(nodes.take(i) =~= init);
        assert(with_manifest(nodes, p, m) =~= nodes.update(
            i,
            NodeView { manifest: Some(m), empty: false, ..nodes[i] },
        ));
    } else {
        assert(init.take(i) =~= nodes.take(i));
        with_manifest_at(init, p, m, i);
        assert(init.take(i + 1).drop_last() =~= init.take(i));
        assert(init.take(i + 1).last() == nodes[i]);
        node_at_prefix(init, i + 1, p);
        assert(with_manifest(nodes, p, m) =~= nodes.update(
            i,
            NodeView { manifest: Some(m), empty: false, ..nodes[i] },
        ));
    }
}

/// What is found at a path stands there; where nothing is found, nothing does.
pub proof fn node_at_is_there(nodes: Seq<NodeView>, p: PathView)
    ensures
        node_at(nodes, p) matches Some(n) ==> n.at == p && exists|i: int|
            0 <= i < nodes.len() && nodes[i] == n,
        node_at(nodes, p) is None ==> forall|i: int|
            0 <= i < nodes.len() ==> (#[trigger] nodes[i]).at != p,
    decreases nodes.len(),
{
    if nodes.len() > 0 {
        let init = nodes.drop_last();
        node_at_is_there(init, p);
        if let Some(n) = node_at(init, p) {
            let i = choose|i: int| 0 <= i < init.len() && init[i] == n;
            assert(nodes[i] == n);
        } else {
            assert forall|i: int| 0 <= i < init.len() implies (#[trigger] nodes[i]).at != p by {
                assert(nodes[i] == init[i]);
            }
            if nodes.last().at == p {
                assert(nodes[nodes.len() - 1] == nodes.last());
            }
        }
    }
}

/// What comes behind the rest does not hide it.
pub proof fn node_at_pushed(nodes: Seq<NodeView>, n: NodeView, p: PathView)
    ensures
        node_at(nodes.push(n), p) == (if node_at(nodes, p) is Some {
            node_at(nodes, p)
        } else if n.at == p {
            Some(n)
        } else {
            None
        }),
{
    assert(nodes.push(n).drop_last() =~= nodes);
}

/// Making the way to a path changes nothing of what stands at it or anywhere else.
pub proof fn way_keeps_the_rest(nodes: Seq<NodeView>, p: PathView, n: int, q: PathView)
    requires
        0 <= n,
    ensures
        node_at(nodes, q) is Some ==> node_at(with_way(nodes, p, n), q) == node_at(nodes, q),
        node_at(nodes, q) is None ==> (node_at(with_way(nodes, p, n), q) matches Some(m) ==> m
            == bare(q) && below(q, p)),
    decreases p.pieces.len() - n,
{
    if n < p.pieces.len() {
        let here = first_pieces(p, n);
        let next = if node_at(nodes, here) is None {
            nodes.push(bare(here))
        } else {
            nodes
        };
        node_at_pushed(nodes, bare(here), q);
        way_keeps_the_rest(next, p, n + 1, q);
        if here == q {
            assert(p.pieces.take(n) == q.pieces);
            assert(below(q, p));
        }
    }
}

/// What was moved stands in its new place, and nothing stands in the old one.
pub proof fn moved_is_found(nodes: Seq<NodeView>, from: PathView, to: PathView)
    requires
        from != to,
        !below(to, from),
    ensures
        node_at(moved(nodes, from, to), from) is None,
        match (node_at(nodes, from), node_at(moved(nodes, from, to), to)) {
            (Some(n), Some(m)) => m == (NodeView { at: to, ..n }),
            (None, None) => true,
            _ => false,
        },
    decreases nodes.len(),
{
    if nodes.len() > 0 {
        let init = nodes.drop_last();
        let n = nodes.last();
        moved_is_found(init, from, to);
        let before = moved(init, from, to);
        if n.at == from || below(from, n.at) {
            let m = NodeView { at: rebased(n.at, from, to), ..n };
            node_at_pushed(before, m, from);
            node_at_pushed(before, m, to);
            if n.at == from {
                assert(m.at.pieces =~= to.pieces);
                assert(m.at =~= to);
            } else {
                assert(m.at.pieces.len() == to.pieces.len() + n.at.pieces.len() - from.pieces.len());
            }
            if m.at == from {
                assert(from.pieces.take(to.pieces.len() as int) =~= to.pieces);
                if n.at == from {
                    assert(from == to);
                }
            }
        } else if n.at == to || below(to, n.at) {
        } else {
            node_at_pushed(before, n, from);
            node_at_pushed(before, n, to);
        }
    }
}

impl Node {
    pub fn new(at: PathKey, kind: NodeKind, empty: bool, manifest: Option<App>) -> (n: Self)
        ensures
            n@ == (NodeView {
                at: at@,
                kind,
                empty,
                manifest: match manifest {
                    Some(a) => Some(a@),
                    None => None,
                },
            }),
    {
        Node { at, kind, empty, manifest }
    }

    pub fn at(&self) -> (r: &PathKey)
        ensures
            r@ == self@.at,
    {
        &self.at
    }

    pub fn kind(&self) -> (r: NodeKind)
        ensures
            r == self@.kind,
    {
        self.kind
    }

    /// The app that the manifest describes.
    pub fn manifest(&self) -> (r: Option<&App>)
        ensures
            match (r, self@.manifest) {
                (Some(a), Some(m)) => a@ == m,
                (None, None) => true,
                _ => false,
            },
    {
        match &self.manifest {
            Some(a) => Some(a),
            None => None,
        }
    }

    /// Whether this leads to a directory.
    pub fn is_dir(&self) -> (r: bool)
        ensures
            r == leads_to_dir(self@.kind),
    {
        self.kind == NodeKind::Directory || self.kind == NodeKind::LinkToDirectory
    }
}

/// What is known to stand at paths.
#[derive(Debug)]
pub struct Disk {
    nodes: Vec<Node>,
}

impl View for Disk {
    type V = Seq<NodeView>;

    closed spec fn view(&self) -> Seq<NodeView> {
        node_views(self.nodes@)
    }
}

impl Disk {
    /// Nothing is known to stand anywhere but what is always there.
    pub fn new() -> (d: Self)
        ensures
            d@ == always_there(),
    {
        let mut d = Disk { nodes: Vec::new() };
        assert(d@ =~= Seq::empty());
        let root = PathKey::root();
        let start = PathKey { absolute: false, pieces: Vec::new() };
        assert(start@.pieces =~= Seq::empty());
        d.push(Node::new(root, NodeKind::Directory, true, None));
        d.push(Node::new(start, NodeKind::Directory, true, None));
        assert(d@ =~= always_there());
        d
    }

    /// Something more is known.
    pub fn push(&mut self, n: Node)
        ensures
            final(self)@ == old(self)@.push(n@),
    {
        let ghost view = n@;
        self.nodes.push(n);
        assert(self@ =~= old(self)@.push(view));
    }

    pub fn len(&self) -> (n: usize)
        ensures
            n == self@.len(),
    {
        self.nodes.len()
    }

    pub fn get(&self, i: usize) -> (r: &Node)
        requires
            i < self@.len(),
        ensures
            r@ == self@[i as int],
    {
        &self.nodes[i]
    }

    /// The first thing that is known to stand at a path.
    pub fn find(&self, p: &PathKey) -> (r: Option<&Node>)
        ensures
            match (r, node_at(self@, p@)) {
                (Some(n), Some(m)) => n@ == m,
                (None, None) => true,
                _ => false,
            },
    {
        let mut i: usize = 0;
        assert(self@.take(0) =~= Seq::empty());
        while i < self.nodes.len()
            invariant
                i <= self.nodes.len(),
                node_at(self@.take(i as int), p@) is None,
            decreases self.nodes.len() - i,
        {
            assert(self@.take(i as int + 1).drop_last() =~= self@.take(i as int));
            assert(self@.take(i as int + 1).last() == self.nodes@[i as int]@);
            if self.nodes[i].at.same(p) {
                proof {
                    node_at_prefix(self@, i as int + 1, p@);
                }
                return Some(&self.nodes[i]);
            }
            i = i + 1;
        }
        assert(self@.take(i as int) =~= self@);
        None
    }

    /// The directory that a path leads to.
    pub fn find_dir(&self, p: &PathKey) -> (r: Option<&Node>)
        ensures
            match (r, dir_at(self@, p@)) {
                (Some(n), Some(m)) => n@ == m,
                (None, None) => true,
                _ => false,
            },
    {
        match self.find(p) {
            Some(n) => if n.is_dir() {
                Some(n)
            } else {
                None
            },
            None => None,
        }
    }

    fn anything_below(&self, p: &PathKey) -> (r: bool)
        ensures
            r == has_below(self@, p@),
    {
        let mut i: usize = 0;
        while i < self.nodes.len()
            invariant
                i <= self.nodes.len(),
                forall|k: int| 0 <= k < i ==> !below(p@, (#[trigger] self@[k]).at),
            decreases self.nodes.len() - i,
        {
            assert(self@[i as int] == self.nodes@[i as int]@);
            if p.is_above(&self.nodes[i].at) {
                return true;
            }
            i = i + 1;
        }
        false
    }

    /// Whether something on the way to a path leads to no directory.
    pub fn is_blocked(&self, p: &PathKey, from: usize) -> (r: bool)
        ensures
            r == way_is_blocked(self@, p@, from as int),
    {
        let n = p.len();
        let mut m: usize = from;
        while m < n
            invariant
                n == p@.pieces.len(),
                from <= m,
                m <= n || m == from,
                forall|k: int|
                    from <= k < m && k < n ==> !(node_at(self@, #[trigger] first_pieces(p@, k))
                        is Some && dir_at(self@, first_pieces(p@, k)) is None),
            decreases n - m,
        {
            let here = p.first(m);
            if self.find(&here).is_some() && self.find_dir(&here).is_none() {
                assert(node_at(self@, first_pieces(p@, m as int)) is Some);
                return true;
            }
            m = m + 1;
        }
        false
    }

    /// Makes the directories on the way to a path.
    pub fn make_way(&mut self, p: &PathKey, from: usize)
        ensures
            final(self)@ == with_way(old(self)@, p@, from as int),
    {
        let n = p.len();
        let mut m: usize = from;
        while m < n
            invariant
                n == p@.pieces.len(),
                from <= m,
                with_way(self@, p@, m as int) == with_way(old(self)@, p@, from as int),
            decreases n - m,
        {
            let here = p.first(m);
            if self.find(&here).is_none() {
                self.push(Node::new(here, NodeKind::Directory, true, None));
            }
            m = m + 1;
        }
    }

    /// Whether what stands at a path may be moved to another.
    pub fn can_move(&self, from: &Node, to: &PathKey) -> (r: bool)
        ensures
            r == may_move(self@, from@, to@),
    {
        if from.at.len() == 0 {
            false
        } else if to.same(&from.at) {
            true
        } else if from.kind == NodeKind::Directory && from.at.is_above(to) {
            false
        } else {
            match self.find(to) {
                None => true,
                Some(n) => if from.kind == NodeKind::Directory {
                    n.kind == NodeKind::Directory && n.empty && !self.anything_below(to)
                } else {
                    n.kind != NodeKind::Directory
                },
            }
        }
    }

    /// Writes the manifest of the first thing at a path anew.
    pub fn write_manifest(&mut self, p: &PathKey, app: App)
        ensures
            final(self)@ == with_manifest(old(self)@, p@, app@),
    {
        let ghost nodes = self@;
        let mut i: usize = 0;
        assert(nodes.take(0) =~= Seq::empty());
        while i < self.nodes.len()
            invariant
                i <= self.nodes.len(),
                self@ == nodes,
                nodes == old(self)@,
                node_at(nodes.take(i as int), p@) is None,
            decreases self.nodes.len() - i,
        {
            assert(nodes.take(i as int + 1).drop_last() =~= nodes.take(i as int));
            assert(nodes.take(i as int + 1).last() == self.nodes@[i as int]@);
            if self.nodes[i].at.same(p) {
                let ghost m = app@;
                proof {
                    with_manifest_at(nodes, p@, m, i as int);
                }
                let ghost list = self.nodes@;
                let n = self.nodes.remove(i);
                let n = Node { at: n.at, kind: n.kind, empty: false, manifest: Some(app) };
                let ghost view = n@;
                self.nodes.insert(i, n);
                assert forall|k: int| 0 <= k < nodes.len() implies self@[k] == nodes.update(
                    i as int,
                    view,
                )[k] by {
                    if k != i {
                        assert(self.nodes@[k] == list[k]);
                        assert(nodes[k] == list[k]@);
                    }
                }
                assert(self@ =~= nodes.update(i as int, view));
                return;
            }
            i = i + 1;
        }
        proof {
            unfound_manifest(nodes, p@, app@);
        }
        assert(nodes.take(i as int) =~= nodes);
    }

    /// Moves what stands at a path, with all that is below it.
    pub fn move_node(&mut self, from: &PathKey, to: &PathKey)
        ensures
            final(self)@ == moved(old(self)@, from@, to@),
    {
        let ghost all = self@;
        let mut rest: Vec<Node> = Vec::new();
        rest.append(&mut self.nodes);
        assert(node_views(rest@) =~= all.skip(0));
        assert(self@ =~= moved(all.take(0), from@, to@));
        while rest.len() > 0
            invariant
                rest@.len() <= all.len(),
                node_views(rest@) == all.skip(all.len() - rest@.len()),
                self@ == moved(all.take(all.len() - rest@.len()), from@, to@),
            decreases rest.len(),
        {
            let ghost k = all.len() - rest@.len();
            let ghost list = rest@;
            let n = rest.remove(0);
            assert forall|i: int| 0 <= i < rest@.len() implies node_views(rest@)[i] == all.skip(
                k + 1,
            )[i] by {
                assert(rest@[i] == list[i + 1]);
                assert(node_views(list)[i + 1] == all.skip(k)[i + 1]);
            }
            assert(node_views(rest@) =~= all.skip(k + 1));
            assert(n@ == node_views(list)[0]);
            assert(all.take(k + 1).drop_last() =~= all.take(k));
            if n.at.same(from) || from.is_above(&n.at) {
                let at = n.at.rebased(from, to);
                self.push(Node { at, kind: n.kind, empty: n.empty, manifest: n.manifest });
            } else if !(n.at.same(to) || to.is_above(&n.at)) {
                self.push(n);
            }
        }
        assert(all.take(all.len() as int) =~= all);
    }
}

proof fn unfound_manifest(nodes: Seq<NodeView>, p: PathView, m: AppView)
    ensures
        node_at(nodes, p) is None ==> with_manifest(nodes, p, m) == nodes,
    decreases nodes.len(),
{
}

/// What is found among the first things is found.
proof fn node_at_prefix(nodes: Seq<NodeView>, n: int, p: PathView)
    requires
        0 <= n <= nodes.len(),
        node_at(nodes.take(n), p) is Some,
    ensures
        node_at(nodes, p) == node_at(nodes.take(n), p),
    decreases nodes.len() - n,
{
    if n < nodes.len() {
        assert(nodes.take(n + 1).drop_last() =~= nodes.take(n));
        node_at_prefix(nodes, n + 1, p);
    } else {
        assert(nodes.take(n) =~= nodes);
    }
}

/// The pieces that lead somewhere are kept in their order; an empty one and that of the directory itself
/// are not.
pub proof fn leading_pieces_add_up(
    a: Seq<Seq<char>>,
    b: Seq<Seq<char>>,
    x: Seq<char>,
)
    ensures
        leading(a + b) == leading(a) + leading(b),
        leading(seq![x]) == (if x.len() > 0 && x != "."@ {
            seq![x]
        } else {
            Seq::empty()
        }),
    decreases b.len(),
{
    let one = seq![x];
    assert(one.drop_last() =~= Seq::<Seq<char>>::empty());
    reveal_with_fuel(leading, 2);
    assert(leading(one) =~= (if x.len() > 0 && x != "."@ {
            seq![x]
        } else {
            Seq::empty()
        }));
    if b.len() == 0 {
        assert(a + b =~= a);
        assert(leading(a) + leading(b) =~= leading(a));
    } else {
        assert((a + b).drop_last() =~= a + b.drop_last());
        assert((a + b).last() == b.last());
        leading_pieces_add_up(a, b.drop_last(), x);
        assert(leading(a + b) =~= leading(a) + leading(b));
    }
}

/// A text that is cut at its slashes is its pieces with slashes between them, and no piece has one.
pub proof fn cut_pieces_make_the_text(s: Seq<char>)
    ensures
        cut(s).len() > 0,
        text::join(cut(s), seq!['/']) == s,
        forall|i: int, k: int|
            0 <= i < cut(s).len() && 0 <= k < cut(s)[i].len() ==> #[trigger] cut(s)[i][k] != '/',
    decreases s.len(),
{
    let slash = seq!['/'];
    if s.len() == 0 {
        assert(cut(s)[0].len() == 0);
        assert(text::join(cut(s), slash) =~= s);
    } else {
        let init = s.drop_last();
        cut_pieces_make_the_text(init);
        let before = cut(init);
        let last = before.last();
        if s.last() == '/' {
            assert(cut(s).drop_last() =~= before);
            assert(text::join(cut(s), slash) =~= s);
        } else {
            let front = before.drop_last();
            assert(cut(s).drop_last() =~= front);
            assert(cut(s).last() == last.push(s.last()));
            if front.len() == 0 {
                assert(before =~= seq![last]);
                assert(cut(s) =~= seq![last.push(s.last())]);
                assert(text::join(cut(s), slash) =~= last.push(s.last()));
            } else {
                assert(init == text::join(front, slash) + slash + last);
                assert(text::join(cut(s), slash) == text::join(front, slash) + slash + last.push(
                    s.last(),
                ));
            }
            assert(text::join(cut(s), slash) =~= init.push(s.last()));
            assert(init.push(s.last()) =~= s);
        }
        assert forall|i: int, k: int|
            0 <= i < cut(s).len() && 0 <= k < cut(s)[i].len() implies #[trigger] cut(s)[i][k]
            != '/' by {
            if s.last() == '/' {
                if i < before.len() {
                    assert(cut(s)[i] == before[i]);
                    assert(before[i][k] != '/');
                }
            } else if i < before.len() - 1 {
                assert(cut(s)[i] == before[i]);
                assert(before[i][k] != '/');
            } else if k < last.len() {
                assert(before[before.len() - 1][k] != '/');
            }
        }
    }
}

/// What is moved replaces nothing but an empty directory, or what is no directory where a link is
/// moved; where nothing stands, a directory moves unless it would go below itself.
pub proof fn moving_replaces_nothing_of_worth(nodes: Seq<NodeView>, from: NodeView, to: PathView)
    ensures
        may_move(nodes, from, to) && to != from.at ==> match node_at(nodes, to) {
            None => true,
            Some(n) => if from.kind == NodeKind::Directory {
                n.kind == NodeKind::Directory && n.empty && forall|i: int|
                    0 <= i < nodes.len() ==> !below(to, (#[trigger] nodes[i]).at)
            } else {
                n.kind != NodeKind::Directory
            },
        },
        from.at.pieces.len() > 0 && node_at(nodes, to) is None && !below(from.at, to) ==> may_move(
            nodes,
            from,
            to,
        ),
        from.kind == NodeKind::Directory && below(from.at, to) ==> !may_move(nodes, from, to),
        from.at.pieces.len() == 0 ==> !may_move(nodes, from, to),
{
    if from.kind == NodeKind::Directory && below(from.at, to) {
        assert(to != from.at);
    }
}

/// What is inside of what was moved is found inside its new place.
pub proof fn what_is_inside_moves_along(
    nodes: Seq<NodeView>,
    from: PathView,
    to: PathView,
    q: PathView,
)
    requires
        from != to,
        !below(to, from),
        !below(from, to),
        below(from, q),
    ensures
        match (node_at(nodes, q), node_at(moved(nodes, from, to), rebased(q, from, to))) {
            (Some(n), Some(m)) => m == (NodeView { at: rebased(q, from, to), ..n }),
            (None, None) => true,
            _ => false,
        },
    decreases nodes.len(),
{
    if nodes.len() > 0 {
        let init = nodes.drop_last();
        let n = nodes.last();
        what_is_inside_moves_along(init, from, to, q);
        let before = moved(init, from, to);
        let there = rebased(q, from, to);
        let len = from.pieces.len() as int;
        assert(there.pieces.take(to.pieces.len() as int) =~= to.pieces);
        if n.at == from || below(from, n.at) {
            let m = NodeView { at: rebased(n.at, from, to), ..n };
            node_at_pushed(before, m, there);
            if m.at == there {
                assert(q.pieces =~= from.pieces + q.pieces.skip(len));
                assert(n.at.pieces =~= from.pieces + n.at.pieces.skip(len)) by {
                    if n.at == from {
                        assert(n.at.pieces.skip(len) =~= Seq::empty());
                    }
                }
                let k = to.pieces.len() as int;
                assert(m.at.pieces.skip(k) =~= n.at.pieces.skip(len));
                assert(there.pieces.skip(k) =~= q.pieces.skip(len));
                assert(n.at =~= q);
            }
        } else if n.at == to || below(to, n.at) {
        } else {
            node_at_pushed(before, n, there);
            assert(n.at != there) by {
                if n.at == there {
                    assert(below(to, n.at));
                }
            }
        }
    }
}

/// A path that ends in a dot names no directory that could be made, whatever comes before it; one
/// that ends in a name does.
pub proof fn a_dot_is_no_name(s: Seq<char>, name: Seq<char>)
    ensures
        ends_where_it_is(s + seq!['/', '.']),
        ends_in_no_name(s + seq!['/', '.', '.']),
        leads_on(name) && name != ".."@ && (forall|i: int|
            0 <= i < name.len() ==> #[trigger] name[i] != '/') ==> !ends_in_no_name(
            s + seq!['/'] + name,
        ),
{
    reveal_strlit(".");
    reveal_strlit("..");
    let dot = seq!['.'];
    let dots = seq!['.', '.'];
    assert(dot =~= "."@);
    assert(dots =~= ".."@);
    uncut(dot);
    uncut(dots);
    cut_at_slash(s, dot);
    cut_at_slash(s, dots);
    assert(s + seq!['/'] + dot =~= s + seq!['/', '.']);
    assert(s + seq!['/'] + dots =~= s + seq!['/', '.', '.']);
    if leads_on(name) && (forall|i: int| 0 <= i < name.len() ==> #[trigger] name[i] != '/') {
        uncut(name);
        cut_at_slash(s, name);
    }
}

/// A way is blocked by what is no directory at any of its steps, the first as well as the last; a
/// way without steps is free.
pub proof fn any_step_blocks_the_way(nodes: Seq<NodeView>, p: PathView, n: int)
    requires
        0 <= n,
    ensures
        n < p.pieces.len() ==> (way_is_blocked(nodes, p, n) <==> (node_at(
            nodes,
            first_pieces(p, n),
        ) matches Some(m) && m.kind != NodeKind::Directory && m.kind != NodeKind::LinkToDirectory)
            || way_is_blocked(nodes, p, n + 1)),
        n >= p.pieces.len() ==> !way_is_blocked(nodes, p, n),
{
    if n < p.pieces.len() {
        if way_is_blocked(nodes, p, n + 1) {
            let m = choose|m: int|
                n + 1 <= m < p.pieces.len() && node_at(nodes, #[trigger] first_pieces(p, m)) is Some
                    && dir_at(nodes, first_pieces(p, m)) is None;
            assert(node_at(nodes, first_pieces(p, m)) is Some);
        }
        if way_is_blocked(nodes, p, n) {
            let m = choose|m: int|
                n <= m < p.pieces.len() && node_at(nodes, #[trigger] first_pieces(p, m)) is Some
                    && dir_at(nodes, first_pieces(p, m)) is None;
            if m > n {
                assert(node_at(nodes, first_pieces(p, m)) is Some);
            }
        }
    }
}

/// A slash behind a path asks for a directory, and so does a dot; a name does not.
pub proof fn a_slash_asks_for_a_directory(s: Seq<char>, name: Seq<char>)
    requires
        leads_on(name),
        forall|i: int| 0 <= i < name.len() ==> #[trigger] name[i] != '/',
    ensures
        asks_for_dir(s + seq!['/']),
        asks_for_dir(s + seq!['/', '.']),
        !asks_for_dir(s + seq!['/'] + name),
{
    reveal_strlit(".");
    let dot = seq!['.'];
    let none = Seq::<char>::empty();
    assert(dot =~= "."@);
    uncut(dot);
    uncut(none);
    uncut(name);
    cut_at_slash(s, dot);
    cut_at_slash(s, none);
    cut_at_slash(s, name);
    assert(s + seq!['/'] + dot =~= s + seq!['/', '.']);
    assert(s + seq!['/'] + none =~= s + seq!['/']);
}

} // verus!
