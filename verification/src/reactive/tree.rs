use vstd::prelude::*;
use crate::components::props::text_model;
use crate::decimal::{decimal_digits, push_decimal};
use crate::elements::element::{connector, indentation, push_connector};
use vstd::string::StringExecFns;

verus! {

/// A node of the shadow tree as mathematics. `children_keys` lists, in the
/// order of the children, each keyed component child's key with its
/// identifier.
pub ghost struct ShadowModel<U> {
    pub is_element: bool,
    pub key: Option<Seq<char>>,
    pub tag: Seq<char>,
    pub update: Option<U>,
    pub children: Seq<ShadowModel<U>>,
    pub children_keys: Seq<(Seq<char>, u64)>,
    pub id: u64,
    pub parent_id: Option<u64>,
}

/// One instantiated component or element of the previous render, kept as the
/// context against which the next render is matched. `U` is the type of the
/// handlers that components return for their events.
#[derive(Debug)]
pub struct ComponentTreeNode<U> {
    pub is_element: bool,
    pub key: Option<String>,
    pub tag: String,
    pub update: Option<U>,
    pub children: Vec<ComponentTreeNode<U>>,
    /// The key and the identifier of each keyed component among the direct
    /// children.
    pub children_keys: Vec<(String, u64)>,
    pub id: u64,
    pub parent_id: Option<u64>,
}

/// The recorded keys as mathematics.
pub open spec fn keys_model(keys: Seq<(String, u64)>) -> Seq<(Seq<char>, u64)> {
    Seq::new(keys.len(), |i: int| (keys[i].0@, keys[i].1))
}

impl<U> ComponentTreeNode<U> {
    /// The node and everything under it as mathematics.
    pub open spec fn model(&self) -> ShadowModel<U>
        decreases self,
    {
        ShadowModel {
            is_element: self.is_element,
            key: text_model(self.key),
            tag: self.tag@,
            update: self.update,
            children: Seq::new(
                self.children@.len(),
                |i: int|
                    if 0 <= i < self.children@.len() {
                        self.children@[i].model()
                    } else {
                        arbitrary()
                    },
            ),
            children_keys: keys_model(self.children_keys@),
            id: self.id,
            parent_id: self.parent_id,
        }
    }
}

impl<U> View for ComponentTreeNode<U> {
    type V = ShadowModel<U>;

    open spec fn view(&self) -> ShadowModel<U> {
        self.model()
    }
}

/// The models of a sequence of nodes, in order.
pub open spec fn nodes_model<U>(nodes: Seq<ComponentTreeNode<U>>) -> Seq<ShadowModel<U>> {
    Seq::new(
        nodes.len(),
        |i: int|
            if 0 <= i < nodes.len() {
                nodes[i]@
            } else {
                arbitrary()
            },
    )
}

/// The model of the node behind an optional reference.
pub open spec fn node_model<U>(node: Option<&ComponentTreeNode<U>>) -> Option<ShadowModel<U>> {
    match node {
        Some(n) => Some(n@),
        None => None,
    }
}

/// The identifier recorded under `key` at or after position `from`: that of
/// the first entry with the key.
pub open spec fn recorded_id(keys: Seq<(Seq<char>, u64)>, key: Seq<char>, from: int) -> Option<u64>
    decreases keys.len() - from,
{
    if from < 0 || from >= keys.len() {
        None
    } else if keys[from].0 == key {
        Some(keys[from].1)
    } else {
        recorded_id(keys, key, from + 1)
    }
}

/// The position, at or after `from`, of the first child that carries `key`.
pub open spec fn keyed_child<U>(children: Seq<ShadowModel<U>>, key: Seq<char>, from: int) -> Option<int>
    decreases children.len() - from,
{
    if from < 0 || from >= children.len() {
        None
    } else if children[from].key == Some(key) {
        Some(from)
    } else {
        keyed_child(children, key, from + 1)
    }
}

/// The identifier recorded under `key`, if any.
pub fn find_recorded_id(keys: &Vec<(String, u64)>, key: &String) -> (found: Option<u64>)
    ensures
        found == recorded_id(keys_model(keys@), key@, 0),
{
    let mut i: usize = 0;
    while i < keys.len()
        invariant
            i <= keys.len(),
            recorded_id(keys_model(keys@), key@, 0) == recorded_id(keys_model(keys@), key@, i as int),
        decreases keys.len() - i,
    {
        if keys[i].0 == *key {
            return Some(keys[i].1);
        }
        i += 1;
    }
    None
}

/// The position of the first child that carries `key`, if any.
pub fn find_keyed_child<U>(children: &Vec<ComponentTreeNode<U>>, key: &String) -> (found: Option<usize>)
    ensures
        match found {
            Some(j) => keyed_child(nodes_model(children@), key@, 0) == Some(j as int) && j < children.len(),
            None => keyed_child(nodes_model(children@), key@, 0).is_none(),
        },
{
    let mut i: usize = 0;
    while i < children.len()
        invariant
            i <= children.len(),
            keyed_child(nodes_model(children@), key@, 0) == keyed_child(
                nodes_model(children@),
                key@,
                i as int,
            ),
        decreases children.len() - i,
    {
        let child = &children[i];
        let carries = match &child.key {
            Some(k) => *k == *key,
            None => false,
        };
        if carries {
            return Some(i);
        }
        i += 1;
    }
    None
}

/// How an outline shows a key: as the standard library's `Debug` writes an
/// optional text, with what does not print escaped.
pub uninterp spec fn key_text(key: Option<Seq<char>>) -> Seq<char>;

/// The text that `core::fmt::Debug` writes for `key`, by `format!` with
/// `{:?}`. The contract gives the text its name and claims nothing more of
/// it.
#[verifier::external_body]
fn key_as_text(key: &Option<String>) -> (text: String)
    ensures
        text@ == key_text(text_model(*key)),
{
    format!("{:?}", key)
}

/// The outline of the tree under `node`: one line for the node, after
/// `margin`, with its type tag, identifier and key, then the outlines of its
/// children, one level deeper.
pub open spec fn node_outline<U>(node: ShadowModel<U>, margin: Seq<char>, is_last: bool) -> Seq<char>
    decreases node, 0nat,
{
    margin + connector(is_last) + " , Tag: "@ + node.tag + ", Id: "@ + decimal_digits(node.id as nat)
        + ", Key: "@ + key_text(node.key) + "\n"@ + nodes_outline(
        node.children,
        0,
        margin + indentation(),
    )
}

/// The outlines of the children from position `from` on, in order.
pub open spec fn nodes_outline<U>(children: Seq<ShadowModel<U>>, from: int, margin: Seq<char>) -> Seq<
    char,
>
    decreases children, children.len() - from,
{
    if from < 0 || from >= children.len() {
        Seq::empty()
    } else {
        node_outline(children[from], margin, from == children.len() - 1) + nodes_outline(
            children,
            from + 1,
            margin,
        )
    }
}

impl<U> ComponentTreeNode<U> {
    /// The tree under the node as an indented outline, one line per node.
    /// Nothing of the tree is changed.
    pub fn outline(&self) -> (text: String)
        ensures
            text@ == node_outline(self@, Seq::empty(), true),
    {
        let mut text = String::new();
        let margin = String::new();
        self.write_outline(&margin, true, &mut text);
        text
    }

    /// Appends the outline of the tree under the node to `out`.
    pub fn write_outline(&self, margin: &String, is_last: bool, out: &mut String)
        ensures
            final(out)@ == old(out)@ + node_outline(self@, margin@, is_last),
        decreases self,
    {
        out.append(margin.as_str());
        push_connector(out, is_last);
        out.append(" , Tag: ");
        out.append(self.tag.as_str());
        out.append(", Id: ");
        push_decimal(out, self.id);
        out.append(", Key: ");
        let key = key_as_text(&self.key);
        out.append(key.as_str());
        out.append("\n");
        let mut deeper = margin.clone();
        deeper.append("  ");
        let ghost start = out@;
        let ghost children = self@.children;
        let count = self.children.len();
        let mut i: usize = 0;
        while i < count
            invariant
                i <= count,
                count == self.children@.len(),
                children == self@.children,
                deeper@ == margin@ + indentation(),
                out@ + nodes_outline(children, i as int, deeper@) == start + nodes_outline(
                    children,
                    0,
                    deeper@,
                ),
            decreases count - i,
        {
            self.children[i].write_outline(&deeper, i + 1 == count, out);
            i += 1;
        }
    }
}

} // verus!
