//! Diagnostic trees: a labelled tree of the state of a component, and the
//! lines that draw it.
use vstd::prelude::*;
use crate::utils::text::{string_of, to_chars};

verus! {

/// A node of a diagnostic tree: a label, perhaps a value, and children.
pub struct DiagNode {
    pub label: String,
    pub value: Option<String>,
    pub children: Vec<DiagNode>,
}

/// Something that can describe its state as a diagnostic tree.
pub trait Diagnosable {
    /// The states in which the description can be made.
    spec fn diagnosable(&self) -> bool;

    fn diagnose(&self) -> DiagNode
        requires
            self.diagnosable(),
    ;
}

/// `n` is a leaf with this label and value.
pub open spec fn leaf_is(n: DiagNode, label: Seq<char>, value: Seq<char>) -> bool {
    &&& n.label@ == label
    &&& n.value matches Some(v) && v@ == value
    &&& n.children@.len() == 0
}

/// A leaf from the characters of its label and value.
pub fn leaf_of(label: &Vec<char>, value: &Vec<char>) -> (r: DiagNode)
    ensures
        leaf_is(r, label@, value@),
{
    DiagNode::leaf(string_of(label), string_of(value))
}

/// A node with children from the characters of its label.
pub fn inner_of(label: &Vec<char>, children: Vec<DiagNode>) -> (r: DiagNode)
    ensures
        r.label@ == label@,
        r.value is None,
        r.children@ == children@,
{
    DiagNode::inner(string_of(label), children)
}

/// The connector that leads to a node: the last child gets the corner.
pub open spec fn connector(is_last: bool) -> Seq<char> {
    if is_last { "└── "@ } else { "├── "@ }
}

/// What the children of a node add to the prefix of their lines.
pub open spec fn indent(is_last: bool) -> Seq<char> {
    if is_last { "    "@ } else { "│   "@ }
}

/// The line of a node under `prefix`: `label: value`, or the label alone.
pub open spec fn node_line(n: DiagNode, prefix: Seq<char>, is_last: bool) -> Seq<char> {
    match n.value {
        Some(v) => prefix + connector(is_last) + n.label@ + ": "@ + v@,
        None => prefix + connector(is_last) + n.label@,
    }
}

/// The lines of a node and of all below it.
pub open spec fn render_node(n: DiagNode, prefix: Seq<char>, is_last: bool) -> Seq<Seq<char>>
    decreases n, 0int,
{
    seq![node_line(n, prefix, is_last)] + render_from(n.children@, prefix + indent(is_last), 0)
}

/// The lines of the children `cs[i..]`, the last of them drawn as such.
pub open spec fn render_from(cs: Seq<DiagNode>, prefix: Seq<char>, i: int) -> Seq<Seq<char>>
    decreases cs, cs.len() - i,
{
    if 0 <= i < cs.len() {
        render_node(cs[i], prefix, i == cs.len() - 1) + render_from(cs, prefix, i + 1)
    } else {
        Seq::empty()
    }
}

/// The lines that draw a whole tree: the root's label, then its children.
pub open spec fn tree_lines(n: DiagNode) -> Seq<Seq<char>> {
    seq![n.label@] + render_from(n.children@, Seq::empty(), 0)
}

impl DiagNode {
    /// A node with a value and no children.
    pub fn leaf(label: String, value: String) -> (r: Self)
        ensures
            r.label@ == label@,
            r.value matches Some(v) && v@ == value@,
            r.children@.len() == 0,
    {
        Self { label, value: Some(value), children: Vec::new() }
    }

    /// A node with children and no value.
    pub fn inner(label: String, children: Vec<DiagNode>) -> (r: Self)
        ensures
            r.label@ == label@,
            r.value is None,
            r.children@ == children@,
    {
        Self { label, value: None, children }
    }

    /// The lines that draw this tree, the root first, each child under its
    /// parent with the connectors of a directory listing.
    pub fn render_lines(&self) -> (r: Vec<String>)
        ensures
            r@.len() == tree_lines(*self).len(),
            forall|i: int| 0 <= i < r@.len() ==> #[trigger] r@[i]@ == tree_lines(*self)[i],
    {
        let mut lines: Vec<Vec<char>> = Vec::new();
        lines.push(to_chars(self.label.as_str()));
        let empty: Vec<char> = Vec::new();
        proof {
            assert(lines.deep_view()[0] =~= self.label@);
            assert(lines.deep_view() =~= seq![self.label@]);
        }
        render_children(&self.children, &empty, &mut lines);
        assert(lines.deep_view() =~= tree_lines(*self));
        let mut out: Vec<String> = Vec::new();
        let mut i: usize = 0;
        while i < lines.len()
            invariant
                i <= lines@.len(),
                lines.deep_view() == tree_lines(*self),
                out@.len() == i,
                forall|k: int| 0 <= k < i ==> #[trigger] out@[k]@ == tree_lines(*self)[k],
            decreases lines@.len() - i,
        {
            let s = string_of(&lines[i]);
            proof {
                assert(lines.deep_view()[i as int] == lines@[i as int].deep_view());
                assert(lines@[i as int].deep_view() =~= lines@[i as int]@);
            }
            out.push(s);
            i = i + 1;
        }
        out
    }
}

/// Appends `b` to `a`.
fn append_chars(a: &mut Vec<char>, b: &Vec<char>)
    ensures
        final(a)@ == old(a)@ + b@,
{
    let ghost start = a@;
    let mut i: usize = 0;
    while i < b.len()
        invariant
            i <= b@.len(),
            a@ == start + b@.take(i as int),
        decreases b@.len() - i,
    {
        a.push(b[i]);
        i = i + 1;
        assert(a@ =~= start + b@.take(i as int));
    }
    assert(b@.take(i as int) =~= b@);
}

/// Appends the lines of `n` and of all below it.
fn render_node_into(n: &DiagNode, prefix: &Vec<char>, is_last: bool, out: &mut Vec<Vec<char>>)
    ensures
        final(out).deep_view() == old(out).deep_view() + render_node(*n, prefix@, is_last),
    decreases *n, 0int,
{
    let mut line: Vec<char> = Vec::new();
    append_chars(&mut line, prefix);
    let conn = if is_last { to_chars("└── ") } else { to_chars("├── ") };
    append_chars(&mut line, &conn);
    let label = to_chars(n.label.as_str());
    append_chars(&mut line, &label);
    match &n.value {
        Some(v) => {
            let sep = to_chars(": ");
            append_chars(&mut line, &sep);
            let vc = to_chars(v.as_str());
            append_chars(&mut line, &vc);
        },
        None => {},
    }
    assert(line@ =~= node_line(*n, prefix@, is_last));
    let ghost before = out.deep_view();
    let ghost lv = line@;
    assert(line.deep_view() =~= lv);
    out.push(line);
    assert(out.deep_view() =~= before + seq![lv]);
    let mut child_prefix: Vec<char> = Vec::new();
    append_chars(&mut child_prefix, prefix);
    let ind = if is_last { to_chars("    ") } else { to_chars("│   ") };
    append_chars(&mut child_prefix, &ind);
    assert(child_prefix@ =~= prefix@ + indent(is_last));
    render_children(&n.children, &child_prefix, out);
    assert(out.deep_view() =~= before + render_node(*n, prefix@, is_last));
}

/// Appends the lines of the children `cs`, each with everything below it.
fn render_children(cs: &Vec<DiagNode>, prefix: &Vec<char>, out: &mut Vec<Vec<char>>)
    ensures
        final(out).deep_view() == old(out).deep_view() + render_from(cs@, prefix@, 0),
    decreases cs, 1int,
{
    let ghost start = out.deep_view();
    let n = cs.len();
    let mut i: usize = 0;
    while i < n
        invariant
            n == cs@.len(),
            i <= n,
            start + render_from(cs@, prefix@, 0) == out.deep_view() + render_from(cs@, prefix@, i as int),
        decreases n - i,
    {
        let ghost before = out.deep_view();
        proof {
            assert(decreases_to!(cs => cs@));
            assert(decreases_to!(cs@ => cs@[i as int]));
        }
        render_node_into(&cs[i], prefix, i == n - 1, out);
        proof {
            assert(before + render_from(cs@, prefix@, i as int) =~= out.deep_view() + render_from(
                cs@,
                prefix@,
                i + 1,
            ));
        }
        i = i + 1;
    }
    assert(render_from(cs@, prefix@, i as int) =~= Seq::<Seq<char>>::empty());
    assert(out.deep_view() + Seq::<Seq<char>>::empty() =~= out.deep_view());
}

} // verus!
