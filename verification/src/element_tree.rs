use std::collections::HashMap;

use vstd::prelude::*;
use vstd::string::StringExecFns;

verus! {

broadcast use vstd::std_specs::hash::group_hash_axioms;

/// An element of the render tree.
#[derive(Clone, Copy, Debug, PartialEq, Eq, Structural)]
pub struct RenderElement {}

/// Render elements stored under integer keys.
pub struct RenderElementTree {
    pub label: &'static str,
    pub render_elements: HashMap<u64, RenderElement>,
}

/// `key` is the least key below `u64::MAX` that `m` does not hold.
pub open spec fn is_least_free_key(m: Map<u64, RenderElement>, key: u64) -> bool {
    &&& key < u64::MAX
    &&& !m.contains_key(key)
    &&& forall|k: u64| k < key ==> m.contains_key(k)
}

/// Every key below `u64::MAX` is taken.
pub open spec fn keys_exhausted(m: Map<u64, RenderElement>) -> bool {
    forall|k: u64| k < u64::MAX ==> m.contains_key(k)
}

/// The message of a failed insertion into the tree labelled `label`.
pub open spec fn insert_failure_message(label: Seq<char>) -> Seq<char> {
    "failed to insert a RenderElement into a RenderElementTree label: "@ + label
        + "\n probable cause: keys up to u64::MAX taken"@
}

impl RenderElementTree {
    /// An empty tree with the given label.
    pub fn new(label: &'static str) -> (t: Self)
        ensures
            t.label == label,
            t.render_elements@ == Map::<u64, RenderElement>::empty(),
    {
        Self { label, render_elements: HashMap::new() }
    }

    /// Stores `element` under the least key below `u64::MAX` that is still
    /// free and returns that key; fails, leaving the tree as it was, when
    /// every such key is taken.
    pub fn insert(&mut self, element: RenderElement) -> (r: Result<u64, String>)
        ensures
            match r {
                Ok(key) => {
                    &&& is_least_free_key(old(self).render_elements@, key)
                    &&& final(self).render_elements@ == old(self).render_elements@.insert(
                        key,
                        element,
                    )
                },
                Err(message) => {
                    &&& keys_exhausted(old(self).render_elements@)
                    &&& message@ == insert_failure_message(old(self).label@)
                    &&& final(self).render_elements@ == old(self).render_elements@
                },
            },
            final(self).label == old(self).label,
    {
        let mut i: u64 = 0;
        while i < u64::MAX
            invariant
                self.render_elements@ == old(self).render_elements@,
                self.label == old(self).label,
                forall|k: u64| k < i ==> self.render_elements@.contains_key(k),
            decreases u64::MAX - i,
        {
            match self.render_elements.get(&i) {
                Some(_) => {},
                None => {
                    self.render_elements.insert(i, element);
                    return Ok(i);
                },
            }
            i = i + 1;
        }
        let mut message = String::from_str(
            "failed to insert a RenderElement into a RenderElementTree label: ",
        );
        message.append(self.label);
        message.append("\n probable cause: keys up to u64::MAX taken");
        Err(message)
    }
}

/// Stores `render_element` in `tree` and returns its key.
pub fn insert_render_element(tree: &mut RenderElementTree, render_element: RenderElement) -> (key:
    u64)
    requires
        !keys_exhausted(old(tree).render_elements@),
    ensures
        is_least_free_key(old(tree).render_elements@, key),
        final(tree).render_elements@ == old(tree).render_elements@.insert(key, render_element),
        final(tree).label == old(tree).label,
{
    match tree.insert(render_element) {
        Ok(key) => key,
        Err(_) => {
            proof {
                assert(false);
            }
            0
        },
    }
}

/// Keys are handed out in increasing order: the key of an insertion is
/// greater than the key of the insertion before it.
pub proof fn lemma_successive_keys_increase(
    m: Map<u64, RenderElement>,
    first: u64,
    element: RenderElement,
    second: u64,
)
    requires
        is_least_free_key(m, first),
        is_least_free_key(m.insert(first, element), second),
    ensures
        first < second,
{
    if second <= first {
        if second < first {
            assert(m.contains_key(second));
        }
        assert(m.insert(first, element).contains_key(second));
    }
}

} // verus!
