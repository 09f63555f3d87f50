//! The game data tree (the contents of the `.nx` data files) as plain values,
//! and the lookups the loaders make in it.
use vstd::prelude::*;

verus! {

/// The value a data node carries.
pub enum NxValue {
    Empty,
    Integer(i64),
    /// A floating-point value, kept as its IEEE-754 bit pattern.
    Float(u64),
    Text(String),
    Vector(i32, i32),
    Bitmap,
    Audio,
}

/// A node of the data tree: its name, its value and its children (in file
/// order, which the data files keep sorted by name, each name once).
pub struct NxNode {
    pub name: String,
    pub value: NxValue,
    pub children: Vec<NxNode>,
}

/// Index of the first child named `name`, if any.
pub open spec fn child_index(children: Seq<NxNode>, name: Seq<char>) -> Option<int>
    decreases children.len(),
{
    if children.len() == 0 {
        None
    } else {
        match child_index(children.drop_last(), name) {
            Some(i) => Some(i),
            None => if children.last().name@ == name {
                Some(children.len() - 1)
            } else {
                None
            },
        }
    }
}

/// The child of `node` named `name`, if any (also `None` under a missing node).
pub open spec fn spec_child(node: Option<NxNode>, name: Seq<char>) -> Option<NxNode> {
    match node {
        None => None,
        Some(n) => match child_index(n.children@, name) {
            Some(i) => Some(n.children@[i]),
            None => None,
        },
    }
}

/// The integer a node holds, if it is an integer node.
pub open spec fn spec_integer(node: Option<NxNode>) -> Option<i64> {
    match node {
        Some(n) => match n.value {
            NxValue::Integer(v) => Some(v),
            _ => None,
        },
        None => None,
    }
}

/// The text a node holds, if it is a text node.
pub open spec fn spec_text(node: Option<NxNode>) -> Option<Seq<char>> {
    match node {
        Some(n) => match n.value {
            NxValue::Text(t) => Some(t@),
            _ => None,
        },
        None => None,
    }
}

/// The float bits a node holds, if it is a float node.
pub open spec fn spec_float_bits(node: Option<NxNode>) -> Option<u64> {
    match node {
        Some(n) => match n.value {
            NxValue::Float(b) => Some(b),
            _ => None,
        },
        None => None,
    }
}

/// The integer under `name`, or `default`.
pub open spec fn int_or(node: Option<NxNode>, name: Seq<char>, default: i64) -> i64 {
    match spec_integer(spec_child(node, name)) {
        Some(v) => v,
        None => default,
    }
}

/// The text under `name`, or the empty text.
pub open spec fn text_or_empty(node: Option<NxNode>, name: Seq<char>) -> Seq<char> {
    match spec_text(spec_child(node, name)) {
        Some(t) => t,
        None => Seq::empty(),
    }
}

proof fn lemma_child_index_bounds(children: Seq<NxNode>, name: Seq<char>)
    ensures
        child_index(children, name) matches Some(i) ==> 0 <= i < children.len()
            && children[i].name@ == name,
        child_index(children, name) is None ==> forall|i: int|
            0 <= i < children.len() ==> #[trigger] children[i].name@ != name,
    decreases children.len(),
{
    if children.len() > 0 {
        lemma_child_index_bounds(children.drop_last(), name);
        assert forall|i: int| 0 <= i < children.len() - 1 implies children.drop_last()[i]
            == #[trigger] children[i] by {}
    }
}

impl NxNode {
    /// The child named `name`, if any.
    pub fn get(&self, name: &str) -> (child: Option<&NxNode>)
        ensures
            child == (match spec_child(Some(*self), name@) {
                Some(c) => Some(&c),
                None => None::<&NxNode>,
            }),
    {
        let n = self.children.len();
        let mut i: usize = 0;
        while i < n
            invariant
                n == self.children@.len(),
                i <= n,
                child_index(self.children@.take(i as int), name@) is None,
            decreases n - i,
        {
            let child = &self.children[i];
            proof {
                assert(self.children@.take(i + 1).drop_last() =~= self.children@.take(i as int));
                lemma_child_index_prefix(self.children@, name@, (i + 1) as int);
            }
            if str_equal(child.name.as_str(), name) {
                proof {
                    lemma_child_index_extends(self.children@, name@, (i + 1) as int);
                }
                return Some(child);
            }
            i += 1;
        }
        proof {
            assert(self.children@.take(n as int) =~= self.children@);
        }
        None
    }

    /// The integer this node holds, if it is an integer node.
    pub fn integer(&self) -> (v: Option<i64>)
        ensures
            v == spec_integer(Some(*self)),
    {
        match &self.value {
            NxValue::Integer(v) => Some(*v),
            _ => None,
        }
    }

    /// The text this node holds, if it is a text node.
    pub fn string(&self) -> (t: Option<&str>)
        ensures
            t matches Some(s) ==> spec_text(Some(*self)) == Some(s@),
            t is None ==> spec_text(Some(*self)) is None,
    {
        match &self.value {
            NxValue::Text(t) => Some(t.as_str()),
            _ => None,
        }
    }

    /// The float bits this node holds, if it is a float node.
    pub fn float_bits(&self) -> (v: Option<u64>)
        ensures
            v == spec_float_bits(Some(*self)),
    {
        match &self.value {
            NxValue::Float(b) => Some(*b),
            _ => None,
        }
    }
}

proof fn lemma_child_index_prefix(children: Seq<NxNode>, name: Seq<char>, k: int)
    requires
        0 < k <= children.len(),
    ensures
        child_index(children.take(k - 1), name) is None ==> (child_index(children.take(k), name)
            == if children[k - 1].name@ == name {
            Some(k - 1)
        } else {
            None::<int>
        }),
{
    assert(children.take(k).drop_last() =~= children.take(k - 1));
}

proof fn lemma_child_index_extends(children: Seq<NxNode>, name: Seq<char>, k: int)
    requires
        0 <= k <= children.len(),
        child_index(children.take(k), name) is Some,
    ensures
        child_index(children, name) == child_index(children.take(k), name),
    decreases children.len() - k,
{
    if k < children.len() {
        assert(children.take(k + 1).drop_last() =~= children.take(k));
        lemma_child_index_extends(children, name, k + 1);
    } else {
        assert(children.take(k) =~= children);
    }
}

/// Text equality.
#[verifier::external_body]
pub(crate) fn str_equal(a: &str, b: &str) -> (eq: bool)
    ensures
        eq == (a@ == b@),
{
    a == b
}

/// The child named `name` of a node that may be missing.
pub fn child<'a>(node: Option<&'a NxNode>, name: &str) -> (c: Option<&'a NxNode>)
    ensures
        c == (match spec_child(
            match node {
                Some(n) => Some(*n),
                None => None,
            },
            name@,
        ) {
            Some(x) => Some(&x),
            None => None::<&NxNode>,
        }),
{
    match node {
        Some(n) => n.get(name),
        None => None,
    }
}

/// The integer of a node that may be missing.
pub fn integer_of(node: Option<&NxNode>) -> (v: Option<i64>)
    ensures
        v == spec_integer(
            match node {
                Some(n) => Some(*n),
                None => None,
            },
        ),
{
    match node {
        Some(n) => n.integer(),
        None => None,
    }
}

/// The text of a node that may be missing, as an owned string (empty when missing).
pub fn text_or_default(node: Option<&NxNode>) -> (t: String)
    ensures
        t@ == (match spec_text(
            match node {
                Some(n) => Some(*n),
                None => None,
            },
        ) {
            Some(s) => s,
            None => Seq::empty(),
        }),
{
    match node {
        Some(n) => match n.string() {
            Some(s) => s.to_owned(),
            None => String::new(),
        },
        None => String::new(),
    }
}

} // verus!
