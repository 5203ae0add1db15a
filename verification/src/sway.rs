//! sway is the source of truth for the window list (`swaymsg -t get_tree`); the
//! Wayland side only supplies pixels. The join between the two is
//! `foreign_toplevel_identifier`, which sway reports per view.
//!
//! Acting on the choice is deliberately not here: the picker reports what was
//! picked and the caller decides what that means.

use vstd::prelude::*;
use vstd::string::*;

use crate::target;
use crate::target::{Record, Target};
use crate::words;
use crate::words::{chars_of, digit, find_char, join, same, trim_text};

verus! {

// --- the socket ------------------------------------------------------------
pub open spec fn has_prefix(s: Seq<char>, p: Seq<char>) -> bool {
    p.len() <= s.len() && s.take(p.len() as int) == p
}

pub open spec fn has_suffix(s: Seq<char>, p: Seq<char>) -> bool {
    p.len() <= s.len() && s.skip(s.len() - p.len()) == p
}

pub open spec fn all_digits(s: Seq<char>) -> bool {
    s.len() > 0 && forall|i: int| 0 <= i < s.len() ==> words::is_digit(#[trigger] s[i])
}

/// The pid in a `sway-ipc.<uid>.<pid>.sock` name: between the two ends stand the
/// digits of the uid, a dot, and the digits of the pid.
pub open spec fn pid_in(name: Seq<char>) -> Option<Seq<char>> {
    let rest = name.skip("sway-ipc."@.len() as int);
    let ids = rest.take(rest.len() - ".sock"@.len());
    let dot = words::find(ids, '.');
    let (uid, pid) = (ids.take(dot), ids.skip(dot + 1));
    if has_prefix(name, "sway-ipc."@) && has_suffix(rest, ".sock"@) && dot < ids.len()
        && all_digits(uid) && all_digits(pid) {
        Some(pid)
    } else {
        None
    }
}

fn only_digits(v: &[char]) -> (r: bool)
    ensures
        r == all_digits(v@),
{
    for i in 0..v.len()
        invariant
            forall|k: int| 0 <= k < i ==> words::is_digit(#[trigger] v@[k]),
    {
        if !digit(v[i]) {
            assert(!words::is_digit(v@[i as int]));
            return false;
        }
    }
    v.len() > 0
}

/// Whether `p` stands in `v` at `at`.
fn stands_at(v: &[char], p: &[char], at: usize) -> (r: bool)
    requires
        at + p@.len() <= v@.len(),
    ensures
        r == (v@.subrange(at as int, at + p@.len()) == p@),
{
    let len = v.len();
    for i in 0..p.len()
        invariant
            at + p@.len() <= v@.len(),
            v@.len() == len,
            v@.subrange(at as int, at + i) == p@.take(i as int),
    {
        if v[at + i] != p[i] {
            assert(v@.subrange(at as int, at + p@.len())[i as int] != p@[i as int]);
            return false;
        }
        assert(v@.subrange(at as int, at + i + 1) =~= p@.take(i + 1));
    }
    assert(p@.take(p@.len() as int) =~= p@);
    true
}

/// The pid out of a `sway-ipc.<uid>.<pid>.sock` name, and nothing else.
pub fn socket_pid(name: &str) -> (r: Option<&str>)
    ensures
        match (r, pid_in(name@)) {
            (Some(a), Some(b)) => a@ == b,
            (None, None) => true,
            _ => false,
        },
{
    let all = chars_of(name);
    let v = all.as_slice();
    let head = chars_of("sway-ipc.");
    let tail = chars_of(".sock");
    let ghost rest = name@.skip(head@.len() as int);
    if v.len() < head.len() || !stands_at(v, head.as_slice(), 0) {
        assert(v@.len() >= head@.len() ==> v@.subrange(0, head@.len() as int) =~= v@.take(
            head@.len() as int,
        ));
        return None;
    }
    assert(v@.subrange(0, head@.len() as int) =~= v@.take(head@.len() as int));
    if v.len() - head.len() < tail.len() {
        return None;
    }
    let end = v.len() - tail.len();
    assert(v@.subrange(end as int, end + tail@.len()) =~= rest.skip(rest.len() - tail@.len()));
    if !stands_at(v, tail.as_slice(), end) {
        return None;
    }
    let start = head.len();
    let ids = &v[start..end];
    assert(ids@ =~= rest.take(rest.len() - tail@.len()));
    let dot = find_char(ids, '.');
    if dot == ids.len() {
        return None;
    }
    let (uid, pid) = (&ids[0..dot], &ids[dot + 1..ids.len()]);
    assert(uid@ =~= ids@.take(dot as int));
    assert(pid@ =~= ids@.skip(dot + 1));
    if only_digits(uid) && only_digits(pid) {
        assert(name@.subrange(start + dot + 1, end as int) =~= pid@);
        Some(name.substring_char(start + dot + 1, end))
    } else {
        None
    }
}

/// Whether this is the name of a running sway, as `/proc/<pid>/comm` gives it:
/// pids get reused, so a socket's has to actually be a sway.
pub fn is_sway(comm: &str) -> (r: bool)
    ensures
        r == (words::trimmed(comm@) == "sway"@),
{
    same(trim_text(comm).as_str(), "sway")
}

/// A path that the environment names.
pub struct Named {
    pub path: String,
    /// Whether something is there.
    pub exists: bool,
}

/// The socket the environment names, if it is actually there. sway's own
/// variable comes second.
pub fn env_socket(i3sock: Option<Named>, swaysock: Option<Named>) -> (r: Option<String>)
    ensures
        r == (match (i3sock, swaysock) {
            (Some(a), Some(b)) => if a.exists {
                Some(a.path)
            } else if b.exists {
                Some(b.path)
            } else {
                None
            },
            (Some(a), None) => if a.exists {
                Some(a.path)
            } else {
                None
            },
            (None, Some(b)) => if b.exists {
                Some(b.path)
            } else {
                None
            },
            (None, None) => None,
        }),
        r == socket_named(i3sock, swaysock),
{
    if let Some(named) = i3sock {
        if named.exists {
            return Some(named.path);
        }
    }
    if let Some(named) = swaysock {
        if named.exists {
            return Some(named.path);
        }
    }
    None
}

/// Which of the running sways to talk to, by the paths of their sockets, when
/// the environment does not say. Several live compositors would make any choice
/// a guess: a nested sway is a real thing to be running.
pub fn choose_socket(live: &[String]) -> (r: Result<String, String>)
    ensures
        match r {
            Ok(path) => live@.len() == 1 && path == live@[0],
            Err(e) => live@.len() != 1 && e@ == (if live@.len() == 0 {
                "cannot reach sway; wl-pick reads the window list from its IPC socket, and no running sway has one"@
            } else {
                "several sway sockets to choose from ("@ + words::joined(words::texts(live@), ", "@)
                    + "); set SWAYSOCK to the one you mean"@
            }),
        },
{
    if live.len() == 1 {
        return Ok(live[0].clone());
    }
    if live.len() == 0 {
        return Err(
            "cannot reach sway; wl-pick reads the window list from its IPC socket, and no running sway has one".to_owned(),
        );
    }
    let mut message = "several sway sockets to choose from (".to_owned();
    message.append(join(live, ", ").as_str());
    message.append("); set SWAYSOCK to the one you mean");
    Err(message)
}

/// What to say of a socket that does not answer.
pub fn unreachable_socket(path: &str, error: &str) -> (r: String)
    ensures
        r@ == "cannot reach sway on "@ + path@ + " ("@ + error@ + ")"@,
{
    let mut message = "cannot reach sway on ".to_owned();
    message.append(path);
    message.append(" (");
    message.append(error);
    message.append(")");
    message
}

// --- the window list -------------------------------------------------------
#[derive(Clone, Copy, PartialEq, Eq, Structural, Debug)]
pub enum NodeType {
    Con,
    FloatingCon,
    /// The root, an output, a workspace, a scratchpad's dock.
    Other,
}

/// One node of sway's tree, as far as the window list reads it.
pub struct Node {
    pub id: i64,
    pub node_type: NodeType,
    pub app_id: Option<String>,
    /// What an Xwayland window has in place of an app id.
    pub class: Option<String>,
    pub foreign_toplevel_identifier: Option<String>,
    pub name: Option<String>,
    pub nodes: Vec<Node>,
    pub floating_nodes: Vec<Node>,
}

/// The text, or nothing.
pub open spec fn text_or_empty(s: Option<String>) -> Seq<char> {
    match s {
        Some(s) => s@,
        None => Seq::empty(),
    }
}

/// The node's own window, where it is one. A view with no identifier cannot be
/// captured, but it still belongs in the list: it gets a tile with no thumbnail.
pub open spec fn own_view(n: Node) -> Seq<Record> {
    if n.node_type != NodeType::Other && (n.app_id is Some || n.class is Some) {
        seq![
            Record::window(
                n.id,
                text_or_empty(n.foreign_toplevel_identifier),
                if n.app_id is Some {
                    text_or_empty(n.app_id)
                } else {
                    text_or_empty(n.class)
                },
                text_or_empty(n.name),
            ),
        ]
    } else {
        Seq::empty()
    }
}

/// Every view at or below a node, in tree order: the node itself, then its
/// tiled children, then the floating ones.
pub open spec fn views(n: Node) -> Seq<Record>
    decreases n, 0nat,
{
    own_view(n) + views_of(n.nodes@) + views_of(n.floating_nodes@)
}

/// Every view at or below any of these nodes.
pub open spec fn views_of(s: Seq<Node>) -> Seq<Record>
    decreases s, s.len(),
{
    if s.len() == 0 {
        Seq::empty()
    } else {
        views_of(s.drop_last()) + views(s.last())
    }
}

fn or_empty(s: &Option<String>) -> (r: String)
    ensures
        r@ == text_or_empty(*s),
{
    match s {
        Some(s) => s.clone(),
        None => String::new(),
    }
}

fn collect(node: &Node, out: &mut Vec<Target>)
    ensures
        target::records(final(out)@) == target::records(old(out)@) + views(*node),
    decreases node, 0nat,
{
    let ghost before = target::records(out@);
    let con = match node.node_type {
        NodeType::Con | NodeType::FloatingCon => true,
        NodeType::Other => false,
    };
    if con && (node.app_id.is_some() || node.class.is_some()) {
        let app = if node.app_id.is_some() {
            or_empty(&node.app_id)
        } else {
            or_empty(&node.class)
        };
        out.push(
            Target::window(
                node.id,
                or_empty(&node.foreign_toplevel_identifier),
                app,
                or_empty(&node.name),
            ),
        );
    }
    assert(target::records(out@) =~= before + own_view(*node));
    collect_all(&node.nodes, out);
    collect_all(&node.floating_nodes, out);
    assert(target::records(out@) =~= before + views(*node));
}

fn collect_all(nodes: &Vec<Node>, out: &mut Vec<Target>)
    ensures
        target::records(final(out)@) == target::records(old(out)@) + views_of(nodes@),
    decreases nodes, nodes.len(),
{
    let ghost before = target::records(out@);
    for i in 0..nodes.len()
        invariant
            target::records(out@) == before + views_of(nodes@.take(i as int)),
    {
        collect(&nodes[i], out);
        assert(nodes@.take(i + 1).drop_last() =~= nodes@.take(i as int));
        assert(target::records(out@) =~= before + views_of(nodes@.take(i + 1)));
    }
    assert(nodes@.take(nodes@.len() as int) =~= nodes@);
}

/// Every view in the tree, in tree order, so the grid keeps the ordering the
/// muscle memory expects.
pub fn windows(tree: &Node) -> (r: Vec<Target>)
    ensures
        target::records(r@) == views(*tree),
{
    let mut out: Vec<Target> = Vec::new();
    collect(tree, &mut out);
    assert(target::records(out@) =~= views(*tree));
    out
}

// --- displays --------------------------------------------------------------
/// An output as sway reports it.
pub struct Output {
    pub name: String,
    pub active: bool,
    /// Logical size.
    pub width: i32,
    pub height: i32,
    /// The scale, rounded up to an integer, where sway reports one.
    pub scale: Option<i32>,
    pub focused: bool,
}

/// One active display: what the overlay needs to size itself against.
///
/// The overlay maps on the focused display, so percentages and the buffer scale
/// are resolved against *that* one: on a mixed-DPI, mixed-size setup the
/// numbers differ per monitor, and taking the largest of everything would be
/// wrong on all but one.
#[derive(Debug)]
pub struct Display {
    pub name: String,
    /// Logical size, which is what layer-shell and pointer events speak in.
    pub width: i32,
    pub height: i32,
    /// Integer scale to render at: a buffer can be downscaled, not invented.
    pub scale: i32,
    pub focused: bool,
}

impl Clone for Display {
    fn clone(&self) -> (r: Self)
        ensures
            r == *self,
    {
        Display {
            name: self.name.clone(),
            width: self.width,
            height: self.height,
            scale: self.scale,
            focused: self.focused,
        }
    }
}

/// The display that an active output is.
pub open spec fn display_of(o: Output) -> Display {
    Display {
        name: o.name,
        width: o.width,
        height: o.height,
        scale: match o.scale {
            Some(s) => if s > 1 {
                s
            } else {
                1
            },
            None => 1,
        },
        focused: o.focused,
    }
}

/// The active outputs, in order.
pub open spec fn active(s: Seq<Output>) -> Seq<Display>
    decreases s.len(),
{
    if s.len() == 0 {
        Seq::empty()
    } else if s.last().active {
        active(s.drop_last()).push(display_of(s.last()))
    } else {
        active(s.drop_last())
    }
}

pub fn displays(outputs: &[Output]) -> (r: Vec<Display>)
    ensures
        r@ == active(outputs@),
{
    let mut out: Vec<Display> = Vec::new();
    for i in 0..outputs.len()
        invariant
            out@ == active(outputs@.take(i as int)),
    {
        proof {
            assert(outputs@.take(i + 1).drop_last() =~= outputs@.take(i as int));
        }
        let o = &outputs[i];
        if o.active {
            let scale: i32 = match o.scale {
                Some(s) => if s > 1 {
                    s
                } else {
                    1
                },
                None => 1,
            };
            out.push(
                Display {
                    name: o.name.clone(),
                    width: o.width,
                    height: o.height,
                    scale,
                    focused: o.focused,
                },
            );
        }
    }
    assert(outputs@.take(outputs@.len() as int) =~= outputs@);
    out
}

/// Where the first focused display stands, or `s.len()`.
pub open spec fn first_focused(s: Seq<Display>) -> int
    decreases s.len(),
{
    if s.len() == 0 || s[0].focused {
        0
    } else {
        1 + first_focused(s.drop_first())
    }
}

/// The display the overlay will appear on: the focused one, or any active one if
/// sway reports none focused.
pub fn focused(displays: &[Display]) -> (r: Option<&Display>)
    ensures
        match r {
            Some(d) => displays@.len() > 0 && *d == (if first_focused(displays@)
                < displays@.len() {
                displays@[first_focused(displays@)]
            } else {
                displays@[0]
            }),
            None => displays@.len() == 0,
        },
{
    assert(displays@.skip(0) =~= displays@);
    for i in 0..displays.len()
        invariant
            first_focused(displays@) == i + first_focused(displays@.skip(i as int)),
    {
        if displays[i].focused {
            return Some(&displays[i]);
        }
        assert(displays@.skip(i as int).drop_first() =~= displays@.skip(i + 1));
    }
    if displays.len() > 0 {
        Some(&displays[0])
    } else {
        None
    }
}

/// The tiles of the grid: the windows, then the displays where they are wanted.
pub open spec fn listing(windows: Seq<Record>, displays: Seq<Display>, outputs: bool) -> Seq<
    Record,
> {
    if outputs {
        windows + displays.map_values(|d: Display| Record::output(d.name@))
    } else {
        windows
    }
}

/// Displays go last, after the windows, so window positions are stable as
/// displays come and go.
pub fn targets(windows: Vec<Target>, displays: &[Display], outputs: bool) -> (r: Vec<Target>)
    ensures
        target::records(r@) == listing(target::records(windows@), displays@, outputs),
{
    let mut out = windows;
    if outputs {
        for i in 0..displays.len()
            invariant
                target::records(out@) == listing(
                    target::records(windows@),
                    displays@.take(i as int),
                    true,
                ),
        {
            let ghost before = target::records(out@);
            out.push(Target::output(displays[i].name.clone()));
            assert(target::records(out@) =~= before.push(Record::output(displays@[i as int].name@)));
            assert(target::records(out@) =~= listing(
                target::records(windows@),
                displays@.take(i + 1),
                true,
            ));
        }
        assert(displays@.take(displays@.len() as int) =~= displays@);
    }
    out
}

// --- what holds of every list ----------------------------------------------
/// A window's tile is in the same place whatever displays there are and whether
/// they are shown.
pub proof fn law_window_positions_are_stable(
    windows: Seq<Record>,
    displays: Seq<Display>,
    outputs: bool,
)
    ensures
        listing(windows, displays, outputs).len() >= windows.len(),
        listing(windows, displays, outputs).take(windows.len() as int) == windows,
{
    assert(listing(windows, displays, outputs).take(windows.len() as int) =~= windows);
}

/// The overlay appears on a focused display whenever one is.
pub proof fn law_a_focused_display_is_chosen(s: Seq<Display>, i: int)
    requires
        0 <= i < s.len(),
        s[i].focused,
    ensures
        0 <= first_focused(s) <= i,
        s[first_focused(s)].focused,
    decreases s.len(),
{
    if !s[0].focused {
        law_a_focused_display_is_chosen(s.drop_first(), i - 1);
    }
}

/// That `n` stands at or below `root` in the tree.
pub open spec fn below(root: Node, n: Node) -> bool
    decreases root, 0nat,
{
    root == n || below_any(root.nodes@, n) || below_any(root.floating_nodes@, n)
}

/// That `n` stands at or below one of these nodes.
pub open spec fn below_any(s: Seq<Node>, n: Node) -> bool
    decreases s, s.len(),
{
    s.len() > 0 && (below(s.last(), n) || below_any(s.drop_last(), n))
}

/// Every view in the tree is in the list, however deep it stands.
pub proof fn law_every_view_is_listed(root: Node, n: Node, view: Record)
    requires
        below(root, n),
        own_view(n).contains(view),
    ensures
        views(root).contains(view),
    decreases root, 0nat,
{
    let (own, tiled, floating) = (
        own_view(root),
        views_of(root.nodes@),
        views_of(root.floating_nodes@),
    );
    let all = own + tiled + floating;
    if root == n {
        let i = choose|i: int| 0 <= i < own.len() && own[i] == view;
        assert(all[i] == view);
    } else if below_any(root.nodes@, n) {
        lemma_every_view_is_listed(root.nodes@, n, view);
        let i = choose|i: int| 0 <= i < tiled.len() && tiled[i] == view;
        assert(all[own.len() + i] == view);
    } else {
        lemma_every_view_is_listed(root.floating_nodes@, n, view);
        let i = choose|i: int| 0 <= i < floating.len() && floating[i] == view;
        assert(all[own.len() + tiled.len() + i] == view);
    }
}

proof fn lemma_every_view_is_listed(s: Seq<Node>, n: Node, view: Record)
    requires
        below_any(s, n),
        own_view(n).contains(view),
    ensures
        views_of(s).contains(view),
    decreases s, s.len(),
{
    let (before, last) = (views_of(s.drop_last()), views(s.last()));
    let all = before + last;
    if below(s.last(), n) {
        law_every_view_is_listed(s.last(), n, view);
        let i = choose|i: int| 0 <= i < last.len() && last[i] == view;
        assert(all[before.len() + i] == view);
    } else {
        lemma_every_view_is_listed(s.drop_last(), n, view);
        let i = choose|i: int| 0 <= i < before.len() && before[i] == view;
        assert(all[i] == view);
    }
}

/// That a node is a window: a container, tiled or floating, that says what
/// application it belongs to.
pub open spec fn is_window(n: Node) -> bool {
    (n.node_type == NodeType::Con || n.node_type == NodeType::FloatingCon) && (n.app_id is Some
        || n.class is Some)
}

/// That a record is of that node's window: its number, its application's id or
/// else its class, its title and its identifier, each empty where it has none.
pub open spec fn records_window(r: Record, n: Node) -> bool {
    &&& r.kind == target::Kind::Window
    &&& r.con_id == Some(n.id)
    &&& r.id == words::decimal(n.id as int)
    &&& n.app_id matches Some(app) ==> r.app == app@
    &&& n.app_id is None && n.class is Some ==> r.app == n.class->Some_0@
    &&& n.name matches Some(name) ==> r.title == name@
    &&& n.name is None ==> r.title.len() == 0
    &&& n.foreign_toplevel_identifier matches Some(id) ==> r.ft_id == id@
    &&& n.foreign_toplevel_identifier is None ==> r.ft_id.len() == 0
}

/// A node and everything below it, in tree order: the node, then what is tiled
/// in it, then what floats in it.
pub open spec fn nodes_of(n: Node) -> Seq<Node>
    decreases n, 0nat,
{
    seq![n] + nodes_of_all(n.nodes@) + nodes_of_all(n.floating_nodes@)
}

/// These nodes and everything below them, in tree order.
pub open spec fn nodes_of_all(s: Seq<Node>) -> Seq<Node>
    decreases s, s.len(),
{
    if s.len() == 0 {
        Seq::empty()
    } else {
        nodes_of_all(s.drop_last()) + nodes_of(s.last())
    }
}

/// That these are the records of the windows among those nodes, one of each, in
/// order.
pub open spec fn lists(records: Seq<Record>, nodes: Seq<Node>) -> bool
    decreases nodes.len(),
{
    if nodes.len() == 0 {
        records.len() == 0
    } else if is_window(nodes.last()) {
        records.len() > 0 && records_window(records.last(), nodes.last()) && lists(
            records.drop_last(),
            nodes.drop_last(),
        )
    } else {
        lists(records, nodes.drop_last())
    }
}

/// Two lists, one after the other, are of the nodes of both.
proof fn lemma_lists(a: Seq<Record>, b: Seq<Record>, x: Seq<Node>, y: Seq<Node>)
    requires
        lists(a, x),
        lists(b, y),
    ensures
        lists(a + b, x + y),
    decreases y.len(),
{
    if y.len() == 0 {
        assert(a + b =~= a);
        assert(x + y =~= x);
    } else {
        assert((x + y).drop_last() =~= x + y.drop_last());
        assert((x + y).last() == y.last());
        if is_window(y.last()) {
            lemma_lists(a, b.drop_last(), x, y.drop_last());
            assert((a + b).drop_last() =~= a + b.drop_last());
            assert((a + b).last() == b.last());
        } else {
            lemma_lists(a, b, x, y.drop_last());
        }
    }
}

/// The list is of the windows of the tree: of every node that is one, however
/// deep it stands and whether it floats, once, in tree order, and of nothing
/// else.
pub proof fn law_the_list_is_the_windows_of_the_tree(root: Node)
    ensures
        lists(views(root), nodes_of(root)),
    decreases root, 0nat,
{
    let (own, tiled, floating) = (
        own_view(root),
        views_of(root.nodes@),
        views_of(root.floating_nodes@),
    );
    let this = seq![root];
    assert(lists(own, this)) by {
        reveal_with_fuel(lists, 2);
        assert(this.drop_last() =~= Seq::empty());
        if is_window(root) {
            assert(own.drop_last() =~= Seq::empty());
            assert(records_window(own.last(), root));
        }
    }
    lemma_lists_of_all(root.nodes@);
    lemma_lists_of_all(root.floating_nodes@);
    lemma_lists(own, tiled, this, nodes_of_all(root.nodes@));
    lemma_lists(
        own + tiled,
        floating,
        this + nodes_of_all(root.nodes@),
        nodes_of_all(root.floating_nodes@),
    );
}

proof fn lemma_lists_of_all(s: Seq<Node>)
    ensures
        lists(views_of(s), nodes_of_all(s)),
    decreases s, s.len(),
{
    if s.len() > 0 {
        lemma_lists_of_all(s.drop_last());
        law_the_list_is_the_windows_of_the_tree(s.last());
        lemma_lists(
            views_of(s.drop_last()),
            views(s.last()),
            nodes_of_all(s.drop_last()),
            nodes_of(s.last()),
        );
    }
}

/// Every window at or below the root is in the list, by its number and with its
/// application: its app id, or else its class.
pub proof fn law_every_window_is_listed(root: Node, n: Node)
    requires
        below(root, n),
        n.node_type == NodeType::Con || n.node_type == NodeType::FloatingCon,
        n.app_id is Some || n.class is Some,
    ensures
        exists|i: int|
            0 <= i < views(root).len() && (#[trigger] views(root)[i]).con_id == Some(n.id)
                && records_window(views(root)[i], n),
{
    let view = own_view(n)[0];
    assert(own_view(n).contains(view));
    law_every_view_is_listed(root, n, view);
    let i = choose|i: int| 0 <= i < views(root).len() && views(root)[i] == view;
    assert(records_window(views(root)[i], n));
}

/// Everything in the list is a window of the tree's.
pub proof fn law_nothing_else_is_listed(root: Node, i: int)
    requires
        0 <= i < views(root).len(),
    ensures
        exists|n: Node|
            #[trigger] below(root, n) && (n.node_type == NodeType::Con || n.node_type
                == NodeType::FloatingCon) && (n.app_id is Some || n.class is Some)
                && records_window(views(root)[i], n),
    decreases root, 0nat,
{
    let (own, tiled, floating) = (
        own_view(root),
        views_of(root.nodes@),
        views_of(root.floating_nodes@),
    );
    if i < own.len() {
        assert(below(root, root));
        assert(views(root)[i] == own[0]);
    } else if i < own.len() + tiled.len() {
        let n = lemma_nothing_else_is_listed(root.nodes@, i - own.len());
        assert(below(root, n));
    } else {
        let n = lemma_nothing_else_is_listed(root.floating_nodes@, i - own.len() - tiled.len());
        assert(below(root, n));
    }
}

proof fn lemma_nothing_else_is_listed(s: Seq<Node>, i: int) -> (n: Node)
    requires
        0 <= i < views_of(s).len(),
    ensures
        below_any(s, n),
        is_window(n),
        records_window(views_of(s)[i], n),
    decreases s, s.len(),
{
    let before = views_of(s.drop_last());
    if i < before.len() {
        lemma_nothing_else_is_listed(s.drop_last(), i)
    } else {
        law_nothing_else_is_listed(s.last(), i - before.len());
        choose|n: Node|
            #[trigger] below(s.last(), n) && is_window(n) && records_window(
                views(s.last())[i - before.len()],
                n,
            )
    }
}

/// Just the active outputs are displays, in their order, by the name and the
/// size they report; each is drawn at its scale, and at no less than one.
pub proof fn law_the_displays_are_the_active_outputs(s: Seq<Output>, o: Output)
    ensures
        active(Seq::empty()).len() == 0,
        !o.active ==> active(s.push(o)) == active(s),
        o.active ==> active(s.push(o)).drop_last() == active(s),
        o.active ==> active(s.push(o)).len() == active(s).len() + 1 && ({
            let d = active(s.push(o)).last();
            &&& d.name == o.name
            &&& d.width == o.width
            &&& d.height == o.height
            &&& d.focused == o.focused
            &&& d.scale >= 1
            &&& o.scale is None ==> d.scale == 1
            &&& o.scale matches Some(n) ==> (n >= 1 ==> d.scale == n) && (n < 1 ==> d.scale == 1)
        }),
{
    assert(s.push(o).drop_last() =~= s);
    assert(active(s.push(o)).drop_last() =~= active(s) || !o.active);
}

/// The overlay appears on the first focused display, and on the first of all
/// only where none is.
pub proof fn law_without_a_focus_the_first_display_is_chosen(s: Seq<Display>)
    ensures
        0 <= first_focused(s) <= s.len(),
        first_focused(s) == s.len() <==> forall|i: int|
            0 <= i < s.len() ==> !(#[trigger] s[i]).focused,
        forall|i: int| 0 <= i < first_focused(s) ==> !(#[trigger] s[i]).focused,
        first_focused(s) < s.len() ==> s[first_focused(s)].focused,
    decreases s.len(),
{
    if s.len() > 0 && !s[0].focused {
        let t = s.drop_first();
        law_without_a_focus_the_first_display_is_chosen(t);
        assert forall|i: int| 0 <= i < first_focused(s) implies !(#[trigger] s[i]).focused by {
            if i > 0 {
                assert(s[i] == t[i - 1]);
            }
        }
        if first_focused(s) < s.len() {
            assert(s[first_focused(s)] == t[first_focused(t)]);
        }
    }
}

/// Displays are tiles after the windows, one for each, in order, where they are
/// wanted; and else there are none.
pub proof fn law_displays_come_last(
    windows: Seq<Record>,
    displays: Seq<Display>,
    outputs: bool,
    i: int,
)
    requires
        0 <= i < displays.len(),
    ensures
        !outputs ==> listing(windows, displays, outputs) == windows,
        outputs ==> listing(windows, displays, outputs).len() == windows.len() + displays.len(),
        outputs ==> ({
            let r = listing(windows, displays, outputs)[windows.len() + i];
            &&& r.kind == target::Kind::Output
            &&& r.id == displays[i].name@
            &&& r.title == displays[i].name@
            &&& r.app == "display"@
            &&& r.con_id is None
            &&& r.ft_id.len() == 0
        }),
{
}

/// A socket's name holds its pid: it is read back out of it, whatever the
/// numbers are.
pub proof fn law_a_socket_name_gives_its_pid(uid: Seq<char>, pid: Seq<char>)
    requires
        all_digits(uid),
        all_digits(pid),
    ensures
        pid_in("sway-ipc."@ + uid + "."@ + pid + ".sock"@) == Some(pid),
{
    let (head, tail) = ("sway-ipc."@, ".sock"@);
    reveal_strlit(".");
    let name = head + uid + "."@ + pid + tail;
    let rest = name.skip(head.len() as int);
    assert(name.take(head.len() as int) =~= head);
    assert(rest =~= uid + "."@ + pid + tail);
    assert(rest.skip(rest.len() - tail.len()) =~= tail);
    let ids = rest.take(rest.len() - tail.len());
    assert(ids =~= uid + "."@ + pid);
    assert(!words::is_digit('.'));
    assert forall|i: int| 0 <= i < uid.len() implies #[trigger] ids[i] != '.' by {
        assert(words::is_digit(uid[i]));
    }
    assert(ids[uid.len() as int] == '.');
    words::law_the_first_character_is_found(ids, '.');
    let dot = words::find(ids, '.');
    assert(dot == uid.len()) by {
        if dot < uid.len() {
            assert(ids[dot] != '.');
        } else if dot > uid.len() {
            assert(ids[uid.len() as int] != '.');
        }
    }
    assert(ids.take(dot) =~= uid);
    assert(ids.skip(dot + 1) =~= pid);
}

/// No other name holds a pid.
pub proof fn law_only_a_socket_name_gives_a_pid(name: Seq<char>)
    requires
        pid_in(name) is Some,
    ensures
        exists|uid: Seq<char>|
            all_digits(uid) && all_digits(pid_in(name)->Some_0) && name == #[trigger] (
            "sway-ipc."@ + uid) + "."@ + pid_in(name)->Some_0 + ".sock"@,
{
    let (head, tail) = ("sway-ipc."@, ".sock"@);
    reveal_strlit(".");
    let rest = name.skip(head.len() as int);
    let ids = rest.take(rest.len() - tail.len());
    words::law_the_first_character_is_found(ids, '.');
    let dot = words::find(ids, '.');
    let (uid, pid) = (ids.take(dot), ids.skip(dot + 1));
    assert(ids =~= uid + "."@ + pid);
    assert(rest =~= ids + tail) by {
        assert(rest.skip(rest.len() - tail.len()) == tail);
        assert forall|i: int| 0 <= i < tail.len() implies #[trigger] tail[i] == rest[ids.len() + i] by {
            assert(rest.skip(rest.len() - tail.len())[i] == rest[ids.len() + i]);
        }
    }
    assert(name =~= head + rest) by {
        assert(name.take(head.len() as int) == head);
        assert forall|i: int| 0 <= i < head.len() implies #[trigger] head[i] == name[i] by {
            assert(name.take(head.len() as int)[i] == name[i]);
        }
    }
    assert(name =~= (head + uid) + "."@ + pid + tail);
}

/// Digits are what they say.
pub proof fn law_digits_are_nothing_else(s: Seq<char>, i: int)
    requires
        0 <= i < s.len(),
        all_digits(s),
    ensures
        48 <= s[i] as u32 <= 57,
{
    assert(words::is_digit(s[i]));
}

/// The path that a variable names, if something is there.
pub open spec fn there(v: Option<Named>) -> Option<String> {
    match v {
        Some(named) if named.exists => Some(named.path),
        _ => None,
    }
}

/// The socket that the two variables name.
pub open spec fn socket_named(i3sock: Option<Named>, swaysock: Option<Named>) -> Option<String> {
    if there(i3sock) is Some {
        there(i3sock)
    } else {
        there(swaysock)
    }
}

/// The environment names a socket that is there: the first variable's where that
/// is, the second's where only that is, and none where neither is.
pub proof fn law_the_environment_names_what_is_there(a: Named, other: Option<Named>)
    ensures
        a.exists ==> socket_named(Some(a), other) == Some(a.path),
        !a.exists ==> socket_named(Some(a), other) == socket_named(None, other),
        a.exists ==> socket_named(None, Some(a)) == Some(a.path),
        !a.exists ==> socket_named(None, Some(a)) is None,
        socket_named(None, None) is None,
{
}

} // verus!
