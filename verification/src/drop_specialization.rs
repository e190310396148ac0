//! Bookkeeping of drop specialisation: which symbol was indexed out of which
//! parent, and which of those indexed children have been incremented.
//!
//! Drop specialisation looks for increments of symbols followed by a
//! decrement of the symbol they were indexed out of (their parent), so that
//! the parent's decrement can be inlined and matching increment/decrement
//! pairs removed. The environment below records the facts that this needs.
//!
//! Only this bookkeeping is here. The pass itself (`specialize_drops`,
//! `specialize_drops_proc`, `specialize_drops_stmt`, `branch_drop_unique`
//! and `free`) walks and rewrites the compiler's statements and expressions,
//! whose types are not part of this crate, and every case of that walk is
//! still unwritten: it computes nothing yet, so there is nothing to state of
//! it. The environment's maps are std `HashMap`s keyed by a symbol's packed
//! 64-bit id, which vstd specifies; the compiler's own map type is not part
//! of this crate, and nothing here reads the order of a map's entries.
use vstd::prelude::*;
use std::collections::HashMap;
use bumpalo::Bump;

verus! {

broadcast use vstd::std_specs::hash::group_hash_axioms;

/// A symbol of the intermediate representation, by its packed 64-bit id.
pub type Symbol = u64;

/// The position of a child in its parent structure.
pub type Index = u64;

#[verifier::external_type_specification]
#[verifier::external_body]
pub struct ExBump<const MIN_ALIGN: usize>(bumpalo::Bump<MIN_ALIGN>);

#[verifier::external_type_specification]
#[verifier::external_body]
#[verifier::reject_recursive_types(T)]
pub struct ExBumpVec<'bump, T>(bumpalo::collections::Vec<'bump, T>);

/// The elements held by an arena vector of indexed children, in order.
pub uninterp spec fn arena_children(v: bumpalo::collections::Vec<'_, (u64, u64)>) -> Seq<(u64, u64)>;

/// Whether one more child fits in an arena vector that holds `len`: when
/// the vector is full, growing it asks for `max(2 * len, len + 1)` pairs of
/// 16 bytes, and the layout of that array must not exceed `isize::MAX`
/// bytes, else growing reports a capacity overflow.
pub open spec fn push_fits(len: nat) -> bool {
    (if 2 * len > len + 1 {
        2 * len
    } else {
        len + 1
    }) * 16 <= isize::MAX
}

/// `bumpalo::collections::Vec::new_in`: an empty vector allocated in `arena`.
#[verifier::external_body]
fn new_children_in<'a>(arena: &'a Bump) -> (v: bumpalo::collections::Vec<'a, (u64, u64)>)
    ensures
        arena_children(v) == Seq::<(u64, u64)>::empty(),
{
    bumpalo::collections::Vec::new_in(arena)
}

/// `bumpalo::collections::Vec::push`: appends `item` at the end. Trusted:
/// the element is appended; growing the vector panics only when the new
/// capacity's layout overflows, which `push_fits` rules out (running out
/// of memory aborts and is not stated).
#[verifier::external_body]
fn push_child<'a>(v: &mut bumpalo::collections::Vec<'a, (u64, u64)>, item: (u64, u64))
    requires
        push_fits(arena_children(*old(v)).len()),
    ensures
        arena_children(*final(v)) == arena_children(*old(v)).push(item),
{
    v.push(item)
}

/// `bumpalo::collections::Vec::as_slice`: the elements, in order.
#[verifier::external_body]
fn children_slice<'v, 'a>(v: &'v bumpalo::collections::Vec<'a, (u64, u64)>) -> (s: &'v [(
    u64,
    u64,
)])
    ensures
        s@ == arena_children(*v),
{
    v.as_slice()
}

/// The indexing relation after `parent[index]` was bound to `child`.
pub open spec fn spec_add_index(
    indexed: Map<Symbol, (Symbol, Index)>,
    parent: Symbol,
    child: Symbol,
    index: Index,
) -> Map<Symbol, (Symbol, Index)> {
    indexed.insert(child, (parent, index))
}

/// The incremented children after `symbol` was incremented: if `symbol`
/// was indexed out of a parent, `(symbol, index)` is appended to that
/// parent's list (which starts empty); otherwise nothing changes.
pub open spec fn spec_add_incremented(
    indexed: Map<Symbol, (Symbol, Index)>,
    incremented: Map<Symbol, Seq<(Symbol, Index)>>,
    symbol: Symbol,
) -> Map<Symbol, Seq<(Symbol, Index)>> {
    if indexed.contains_key(symbol) {
        let (parent, index) = indexed[symbol];
        let before = if incremented.contains_key(parent) {
            incremented[parent]
        } else {
            Seq::empty()
        };
        incremented.insert(parent, before.push((symbol, index)))
    } else {
        incremented
    }
}

/// Every incremented child listed under a parent was indexed out of that
/// parent, at the index recorded beside it.
pub open spec fn children_consistent(
    indexed: Map<Symbol, (Symbol, Index)>,
    incremented: Map<Symbol, Seq<(Symbol, Index)>>,
) -> bool {
    forall|parent: Symbol, k: int|
        #![trigger incremented[parent][k]]
        incremented.contains_key(parent) && 0 <= k < incremented[parent].len() ==> {
            let (child, index) = incremented[parent][k];
            indexed.contains_key(child) && indexed[child] == (parent, index)
        }
}

/// The facts that drop specialisation has gathered so far.
#[derive(Clone)]
pub struct DropSpecializationEnvironment<'a> {
    arena: &'a Bump,
    indexed_child_of: HashMap<Symbol, (Symbol, Index)>,
    incremented_children: HashMap<Symbol, bumpalo::collections::Vec<'a, (Symbol, Index)>>,
}

impl<'a> DropSpecializationEnvironment<'a> {
    /// Which symbol is an index of which symbol: `child -> (parent, index)`.
    pub closed spec fn indexed(&self) -> Map<Symbol, (Symbol, Index)> {
        self.indexed_child_of@
    }

    /// The incremented indexed children of each parent, in the order in
    /// which they were incremented.
    pub closed spec fn incremented(&self) -> Map<Symbol, Seq<(Symbol, Index)>> {
        Map::new(
            |parent: Symbol| self.incremented_children@.contains_key(parent),
            |parent: Symbol| arena_children(self.incremented_children@[parent]),
        )
    }

    /// The environment's invariant: see `children_consistent`.
    pub open spec fn wf(&self) -> bool {
        children_consistent(self.indexed(), self.incremented())
    }

    /// Whether the list of `symbol`'s parent, if it has one, has room for
    /// one more child.
    pub open spec fn has_room_for(&self, symbol: Symbol) -> bool {
        self.indexed().contains_key(symbol) ==> {
            let parent = self.indexed()[symbol].0;
            self.incremented().contains_key(parent) ==> push_fits(
                self.incremented()[parent].len(),
            )
        }
    }

    /// A fresh environment, allocating its lists in `arena`.
    pub fn new(arena: &'a Bump) -> (env: Self)
        ensures
            env.indexed() == Map::<Symbol, (Symbol, Index)>::empty(),
            env.incremented() == Map::<Symbol, Seq<(Symbol, Index)>>::empty(),
            env.wf(),
    {
        let env = DropSpecializationEnvironment {
            arena,
            indexed_child_of: HashMap::new(),
            incremented_children: HashMap::new(),
        };
        assert(env.incremented() =~= Map::<Symbol, Seq<(Symbol, Index)>>::empty());
        env
    }

    /// Records that `child` was bound to `parent[index]`. A child is bound
    /// only once.
    pub fn add_index(&mut self, parent: Symbol, child: Symbol, index: Index)
        requires
            !old(self).indexed().contains_key(child),
        ensures
            final(self).indexed() == spec_add_index(old(self).indexed(), parent, child, index),
            final(self).incremented() == old(self).incremented(),
            old(self).wf() ==> final(self).wf(),
    {
        let old_value = self.indexed_child_of.insert(child, (parent, index));
        assert(old_value is None);
        assert(self.incremented() =~= old(self).incremented());
    }

    /// Records that `symbol` was incremented; only symbols indexed out of a
    /// parent are remembered.
    pub fn add_incremented(&mut self, symbol: Symbol)
        requires
            old(self).has_room_for(symbol),
        ensures
            final(self).indexed() == old(self).indexed(),
            final(self).incremented() == spec_add_incremented(
                old(self).indexed(),
                old(self).incremented(),
                symbol,
            ),
            old(self).wf() ==> final(self).wf(),
    {
        match self.indexed_child_of.get(&symbol) {
            Some(found) => {
                let (parent, index) = *found;
                let mut children = match self.incremented_children.remove(&parent) {
                    Some(children) => children,
                    None => new_children_in(self.arena),
                };
                push_child(&mut children, (symbol, index));
                self.incremented_children.insert(parent, children);
                assert(self.incremented() =~= spec_add_incremented(
                    old(self).indexed(),
                    old(self).incremented(),
                    symbol,
                ));
            },
            None => {
                // Value not indexed, so it can be ignored.
                assert(self.incremented() =~= old(self).incremented());
            },
        }
    }

    /// The parent and index that `child` was indexed out of, if any.
    pub fn indexed_child_of(&self, child: Symbol) -> (r: Option<(Symbol, Index)>)
        ensures
            r == (if self.indexed().contains_key(child) {
                Some(self.indexed()[child])
            } else {
                None
            }),
    {
        match self.indexed_child_of.get(&child) {
            Some(found) => Some(*found),
            None => None,
        }
    }

    /// The incremented children recorded for `parent`, in order.
    pub fn incremented_children_of(&self, parent: Symbol) -> (r: Vec<(Symbol, Index)>)
        ensures
            r@ == (if self.incremented().contains_key(parent) {
                self.incremented()[parent]
            } else {
                Seq::empty()
            }),
    {
        match self.incremented_children.get(&parent) {
            Some(children) => vstd::slice::slice_to_vec(children_slice(children)),
            None => Vec::new(),
        }
    }
}

/// Binding `child` to `parent[index]` and then incrementing `child` leaves
/// `(child, index)` as the last incremented child of `parent`, after the
/// children that parent already had.
pub proof fn lemma_index_then_increment(
    indexed: Map<Symbol, (Symbol, Index)>,
    incremented: Map<Symbol, Seq<(Symbol, Index)>>,
    parent: Symbol,
    child: Symbol,
    index: Index,
)
    ensures
        ({
            let after = spec_add_incremented(
                spec_add_index(indexed, parent, child, index),
                incremented,
                child,
            );
            let before = if incremented.contains_key(parent) {
                incremented[parent]
            } else {
                Seq::empty()
            };
            &&& after.contains_key(parent)
            &&& after[parent] == before.push((child, index))
            &&& forall|other: Symbol| other != parent ==> after.get(other) == incremented.get(other)
        }),
{
}

/// Incrementing never forgets a recorded child: every parent keeps its
/// list, which is at most extended at its end.
pub proof fn lemma_increment_keeps_recorded_children(
    indexed: Map<Symbol, (Symbol, Index)>,
    incremented: Map<Symbol, Seq<(Symbol, Index)>>,
    symbol: Symbol,
)
    ensures
        forall|parent: Symbol|
            #[trigger] incremented.contains_key(parent) ==> {
                let after = spec_add_incremented(indexed, incremented, symbol);
                &&& after.contains_key(parent)
                &&& incremented[parent].len() <= after[parent].len()
                &&& after[parent].subrange(0, incremented[parent].len() as int)
                    == incremented[parent]
            },
{
    let after = spec_add_incremented(indexed, incremented, symbol);
    assert forall|parent: Symbol| #[trigger] incremented.contains_key(parent) implies {
        &&& after.contains_key(parent)
        &&& incremented[parent].len() <= after[parent].len()
        &&& after[parent].subrange(0, incremented[parent].len() as int) == incremented[parent]
    } by {
        assert(after[parent].subrange(0, incremented[parent].len() as int)
            =~= incremented[parent]);
    }
}

/// Incrementing a symbol that was never indexed out of a parent changes
/// nothing.
pub proof fn lemma_increment_unindexed(
    indexed: Map<Symbol, (Symbol, Index)>,
    incremented: Map<Symbol, Seq<(Symbol, Index)>>,
    symbol: Symbol,
)
    requires
        !indexed.contains_key(symbol),
    ensures
        spec_add_incremented(indexed, incremented, symbol) == incremented,
{
}

/// Both operations keep every recorded incremented child consistent with
/// the indexing relation (binding a child that was not bound before).
pub proof fn lemma_operations_keep_consistency(
    indexed: Map<Symbol, (Symbol, Index)>,
    incremented: Map<Symbol, Seq<(Symbol, Index)>>,
    parent: Symbol,
    child: Symbol,
    index: Index,
    symbol: Symbol,
)
    requires
        children_consistent(indexed, incremented),
    ensures
        !indexed.contains_key(child) ==> children_consistent(
            spec_add_index(indexed, parent, child, index),
            incremented,
        ),
        children_consistent(indexed, spec_add_incremented(indexed, incremented, symbol)),
{
    if !indexed.contains_key(child) {
        let ix = spec_add_index(indexed, parent, child, index);
        assert forall|p: Symbol, k: int|
            #![trigger incremented[p][k]]
            incremented.contains_key(p) && 0 <= k < incremented[p].len() implies {
            let (c, i) = incremented[p][k];
            ix.contains_key(c) && ix[c] == (p, i)
        } by {
            let (c, i) = incremented[p][k];
            assert(indexed.contains_key(c));
            assert(c != child);
        }
    }
    let inc = spec_add_incremented(indexed, incremented, symbol);
    if indexed.contains_key(symbol) {
        let (par, idx) = indexed[symbol];
        assert forall|p: Symbol, k: int|
            #![trigger inc[p][k]]
            inc.contains_key(p) && 0 <= k < inc[p].len() implies {
            let (c, i) = inc[p][k];
            indexed.contains_key(c) && indexed[c] == (p, i)
        } by {
            if p == par {
                let before = if incremented.contains_key(par) {
                    incremented[par]
                } else {
                    Seq::empty()
                };
                if k < before.len() {
                    assert(inc[p][k] == incremented[p][k]);
                }
            } else {
                assert(inc[p][k] == incremented[p][k]);
            }
        }
    }
}

} // verus!
