//! The builder: an ordered collection of configuration layers and the
//! priority-ordered merge that solidifies them.
//!
//! Layers live in an arena indexed by position; a layer's children, the
//! nested includes discovered while loading it, always stand at higher
//! indices than the layer itself.  Merging walks one linear precedence
//! order: a later-declared top-level layer beats an earlier one, a layer's
//! children beat the layer itself, and among children a later-discovered
//! include beats an earlier one.  The built-in default layer sits beneath
//! everything.

use vstd::prelude::*;

use crate::error::{Error, ErrorV, Source, SourceV, sources_view};
use crate::model::{
    FieldDescV, Partial, Shape, SlotV, default_slots, lemma_default_wf, lemma_merge_wf,
    lemma_skeleton_wf, lemma_wf_compat, merge_slots, missing_slots, skeleton_slots, wf_fields,
    wf_slots,
};
use crate::LayeredConfMerge;
use crate::LayeredConfSolidify;

verus! {

/// One layer of the resolution tree: its source, the working directory its
/// relative paths resolve against, the partial view it loaded, the layers
/// its value named for further loading, and its ancestry.
#[derive(Debug)]
pub struct LayerRec {
    /// Where this layer's data comes from.
    pub source: Source,
    /// Working directory for relative paths; `None` means the directory
    /// the whole resolution runs in.
    pub cwd: Option<String>,
    /// The most recently loaded partial view; empty until loaded.
    pub value: Partial,
    /// Arena indices of the layers this layer's value named, in discovery
    /// order; always greater than this layer's own index.
    pub children: Vec<usize>,
    /// Whether this layer has been loaded.
    pub loaded: bool,
    /// The sources of this layer's ancestors, nearest first.
    pub parents: Vec<Source>,
}

/// Mathematical model of a [`LayerRec`].
pub struct LayerRecV {
    /// Where this layer's data comes from.
    pub source: SourceV,
    /// Working directory for relative paths.
    pub cwd: Option<Seq<char>>,
    /// The most recently loaded partial view.
    pub value: Seq<SlotV>,
    /// Arena indices of this layer's children, in discovery order.
    pub children: Seq<int>,
    /// Whether this layer has been loaded.
    pub loaded: bool,
    /// The sources of this layer's ancestors, nearest first.
    pub parents: Seq<SourceV>,
}

/// The models of an index vector.
pub open spec fn usizes_view(v: Seq<usize>) -> Seq<int> {
    Seq::new(v.len(), |i: int| v[i] as int)
}

pub open spec fn layer_rec_view(r: LayerRec) -> LayerRecV {
    LayerRecV {
        source: r.source@,
        cwd: match r.cwd {
            Option::Some(c) => Option::Some(c@),
            Option::None => Option::None,
        },
        value: r.value@,
        children: usizes_view(r.children@),
        loaded: r.loaded,
        parents: sources_view(r.parents@),
    }
}

impl View for LayerRec {
    type V = LayerRecV;

    open spec fn view(&self) -> LayerRecV {
        layer_rec_view(*self)
    }
}

/// The models of an arena.
pub open spec fn arena_view(v: Seq<LayerRec>) -> Seq<LayerRecV> {
    Seq::new(v.len(), |i: int| v[i]@)
}

/// An ordered collection of top-level configuration layers, lowest
/// priority first, together with the arena that holds the whole layer
/// tree.
#[derive(Debug)]
pub struct Builder {
    /// The configuration shape every layer mirrors.
    pub shape: Shape,
    /// Every layer of the tree, top-level and discovered alike.
    pub arena: Vec<LayerRec>,
    /// Arena indices of the top-level layers, in declaration order:
    /// ascending priority.
    pub top: Vec<usize>,
}

/// Mathematical model of a [`Builder`].
pub struct BuilderV {
    /// The configuration shape.
    pub shape: Seq<FieldDescV>,
    /// Every layer of the tree.
    pub arena: Seq<LayerRecV>,
    /// Arena indices of the top-level layers, ascending priority.
    pub top: Seq<int>,
}

impl View for Builder {
    type V = BuilderV;

    open spec fn view(&self) -> BuilderV {
        BuilderV { shape: self.shape@, arena: arena_view(self.arena@), top: usizes_view(self.top@) }
    }
}

/// Validity of one arena record: its value mirrors the shape, and its
/// children stand strictly after it in the arena.
pub open spec fn rec_wf(b: BuilderV, i: int) -> bool {
    &&& wf_slots(b.arena[i].value, b.shape)
    &&& forall|k: int|
        0 <= k < b.arena[i].children.len() ==> i < #[trigger] b.arena[i].children[k]
            < b.arena.len()
}

/// Validity of a whole builder.
pub open spec fn builder_wf(b: BuilderV) -> bool {
    &&& wf_fields(b.shape)
    &&& forall|i: int| 0 <= i < b.arena.len() ==> #[trigger] rec_wf(b, i)
    &&& forall|t: int| 0 <= t < b.top.len() ==> 0 <= #[trigger] b.top[t] < b.arena.len()
}

/// The partial views of the subtree rooted at `id`, linearized highest
/// priority first: the chains of the children in reverse discovery order,
/// then the layer's own value.
pub open spec fn subtree_chain(arena: Seq<LayerRecV>, id: int) -> Seq<Seq<SlotV>>
    decreases arena.len() - id, arena[id].children.len() + 1,
{
    if 0 <= id < arena.len() {
        children_chains_rev(arena, arena[id].children, id) + seq![arena[id].value]
    } else {
        Seq::empty()
    }
}

/// The concatenated chains of the layers listed in `cs`, taken in reverse
/// order; every listed index exceeds `lo`.
pub open spec fn children_chains_rev(arena: Seq<LayerRecV>, cs: Seq<int>, lo: int) -> Seq<
    Seq<SlotV>,
>
    decreases arena.len() - lo, cs.len(),
{
    if cs.len() == 0 {
        Seq::empty()
    } else if lo < cs.last() < arena.len() {
        subtree_chain(arena, cs.last()) + children_chains_rev(arena, cs.drop_last(), lo)
    } else {
        children_chains_rev(arena, cs.drop_last(), lo)
    }
}

/// The partial views of a whole builder, linearized highest priority
/// first.
pub open spec fn builder_chain(b: BuilderV) -> Seq<Seq<SlotV>> {
    children_chains_rev(b.arena, b.top, -1)
}

/// Folds a priority-ordered sequence of partial views (highest first) onto
/// an aggregate, the aggregate and earlier views winning over later ones.
pub open spec fn apply_chain(acc: Seq<SlotV>, chains: Seq<Seq<SlotV>>) -> Seq<SlotV>
    decreases chains.len(),
{
    if chains.len() == 0 {
        acc
    } else {
        apply_chain(merge_slots(acc, chains.first()), chains.drop_first())
    }
}

pub proof fn lemma_apply_chain_app(acc: Seq<SlotV>, c1: Seq<Seq<SlotV>>, c2: Seq<Seq<SlotV>>)
    ensures
        apply_chain(acc, c1 + c2) == apply_chain(apply_chain(acc, c1), c2),
    decreases c1.len(),
{
    if c1.len() == 0 {
        assert(c1 + c2 =~= c2);
    } else {
        assert((c1 + c2).first() == c1.first());
        assert((c1 + c2).drop_first() =~= c1.drop_first() + c2);
        lemma_apply_chain_app(merge_slots(acc, c1.first()), c1.drop_first(), c2);
    }
}

/// Prepending one more layer to the front of a reversed-children list
/// appends its chain at the low-priority end.
pub proof fn lemma_ccr_prepend(arena: Seq<LayerRecV>, c: int, cs: Seq<int>, lo: int)
    requires
        -1 <= lo,
        lo < c < arena.len(),
        forall|k: int| 0 <= k < cs.len() ==> lo < #[trigger] cs[k] < arena.len(),
    ensures
        children_chains_rev(arena, seq![c] + cs, lo) == children_chains_rev(arena, cs, lo)
            + subtree_chain(arena, c),
    decreases cs.len(),
{
    let whole = seq![c] + cs;
    assert(forall|k: int| 0 <= k < whole.len() ==> lo < #[trigger] whole[k] < arena.len());
    if cs.len() == 0 {
        assert(whole.last() == c);
        assert(whole.drop_last() =~= Seq::<int>::empty());
        assert(children_chains_rev(arena, Seq::<int>::empty(), lo) =~= Seq::<Seq<SlotV>>::empty());
        assert(children_chains_rev(arena, whole, lo) =~= subtree_chain(arena, c));
        assert(children_chains_rev(arena, cs, lo) + subtree_chain(arena, c) =~= subtree_chain(
            arena,
            c,
        ));
    } else {
        assert(whole.last() == cs.last());
        assert(whole.drop_last() =~= seq![c] + cs.drop_last());
        lemma_ccr_prepend(arena, c, cs.drop_last(), lo);
        assert(subtree_chain(arena, cs.last()) + (children_chains_rev(arena, cs.drop_last(), lo)
            + subtree_chain(arena, c)) =~= (subtree_chain(arena, cs.last())
            + children_chains_rev(arena, cs.drop_last(), lo)) + subtree_chain(arena, c));
    }
}

/// The merged partial view of a builder: every layer folded in precedence
/// order over the all-absent view, the built-in defaults beneath it all.
pub open spec fn merged_view(b: BuilderV) -> Seq<SlotV> {
    merge_slots(apply_chain(skeleton_slots(b.shape), builder_chain(b)), default_slots(b.shape))
}

/// What solidifying a builder returns: the complete merged configuration,
/// or the error naming what stops it.
pub open spec fn solidify_spec(b: BuilderV) -> Result<Seq<SlotV>, ErrorV> {
    if b.top.len() == 0 {
        Result::Err(ErrorV::SolidifyFailedNoLayers)
    } else {
        let m = merged_view(b);
        if missing_slots(b.shape, m).len() == 0 {
            Result::Ok(m)
        } else {
            Result::Err(ErrorV::SolidifyFailedMissing { missing: missing_slots(b.shape, m) })
        }
    }
}

impl Builder {
    /// A builder for the given configuration shape, holding no layers.
    pub fn new(shape: Shape) -> (r: Builder)
        requires
            wf_fields(shape@),
        ensures
            builder_wf(r@),
            r@.shape == shape@,
            r@.arena.len() == 0,
            r@.top.len() == 0,
    {
        let r = Builder { shape, arena: Vec::new(), top: Vec::new() };
        proof {
            assert(arena_view(r.arena@) =~= Seq::<LayerRecV>::empty());
            assert(usizes_view(r.top@) =~= Seq::<int>::empty());
        }
        r
    }

    /// Appends a new top-level layer for `source`, above every layer
    /// declared before it.
    pub fn new_layer(&mut self, source: Source)
        requires
            builder_wf(old(self)@),
        ensures
            builder_wf(final(self)@),
            final(self)@.shape == old(self)@.shape,
            final(self)@.arena == old(self)@.arena.push(
                LayerRecV {
                    source: source@,
                    cwd: Option::None,
                    value: skeleton_slots(old(self)@.shape),
                    children: Seq::empty(),
                    loaded: false,
                    parents: Seq::empty(),
                },
            ),
            final(self)@.top == old(self)@.top.push(old(self)@.arena.len() as int),
    {
        let value = self.shape.skeleton();
        let id = self.arena.len();
        let rec = LayerRec {
            source,
            cwd: Option::None,
            value,
            children: Vec::new(),
            loaded: false,
            parents: Vec::new(),
        };
        proof {
            assert(usizes_view(rec.children@) =~= Seq::<int>::empty());
            assert(sources_view(rec.parents@) =~= Seq::<SourceV>::empty());
        }
        self.arena.push(rec);
        self.top.push(id);
        proof {
            assert(arena_view(self.arena@) =~= arena_view(old(self).arena@).push(
                self.arena@.last()@,
            ));
            assert(usizes_view(self.top@) =~= usizes_view(old(self).top@).push(id as int));
            lemma_skeleton_wf(old(self)@.shape);
            assert forall|i: int| 0 <= i < self@.arena.len() implies #[trigger] rec_wf(
                self@,
                i,
            ) by {
                if i < old(self)@.arena.len() {
                    assert(rec_wf(old(self)@, i));
                    assert(self@.arena[i] == old(self)@.arena[i]);
                } else {
                    assert(self@.arena[i] == self.arena@.last()@);
                    assert(self@.arena[i].value == skeleton_slots(old(self)@.shape));
                    assert(self@.arena[i].children.len() == 0);
                }
            }
            assert forall|t: int| 0 <= t < self@.top.len() implies 0 <= #[trigger] self@.top[t]
                < self@.arena.len() by {
                if t < old(self)@.top.len() {
                    assert(self@.top[t] == old(self)@.top[t]);
                }
            }
        }
    }

    /// Merges the subtree rooted at `id` onto `merged`, children before
    /// their parent, later-discovered children first.
    fn merge_subtree_into(&self, id: usize, merged: &mut Partial)
        requires
            builder_wf(self@),
            id < self@.arena.len(),
            wf_slots(old(merged)@, self@.shape),
        ensures
            final(merged)@ == apply_chain(old(merged)@, subtree_chain(self@.arena, id as int)),
            wf_slots(final(merged)@, self@.shape),
        decreases self@.arena.len() - id,
    {
        let ghost arena = self@.arena;
        let ghost base = merged@;
        proof {
            assert(rec_wf(self@, id as int));
        }
        let ncs = self.arena[id].children.len();
        let ghost cs = arena[id as int].children;
        let mut k = ncs;
        proof {
            assert(cs.subrange(k as int, ncs as int) =~= Seq::<int>::empty());
            assert(children_chains_rev(arena, cs.subrange(k as int, ncs as int), id as int)
                =~= Seq::<Seq<SlotV>>::empty());
        }
        while k > 0
            invariant
                builder_wf(self@),
                arena == self@.arena,
                id < arena.len(),
                k <= ncs,
                ncs == self.arena@[id as int].children.len(),
                cs == arena[id as int].children,
                merged@ == apply_chain(
                    base,
                    children_chains_rev(arena, cs.subrange(k as int, ncs as int), id as int),
                ),
                wf_slots(merged@, self@.shape),
            decreases k,
        {
            k = k - 1;
            let c = self.arena[id].children[k];
            proof {
                assert(rec_wf(self@, id as int));
                assert(cs[k as int] == c as int);
                assert(id < c < arena.len());
            }
            let ghost before = merged@;
            self.merge_subtree_into(c, merged);
            proof {
                let done = cs.subrange(k as int + 1, ncs as int);
                assert(cs.subrange(k as int, ncs as int) =~= seq![c as int] + done);
                assert(forall|j: int|
                    0 <= j < done.len() ==> id < #[trigger] done[j] < arena.len());
                lemma_ccr_prepend(arena, c as int, done, id as int);
                lemma_apply_chain_app(
                    base,
                    children_chains_rev(arena, done, id as int),
                    subtree_chain(arena, c as int),
                );
            }
        }
        proof {
            assert(cs.subrange(0, ncs as int) =~= cs);
            assert(rec_wf(self@, id as int));
            lemma_wf_compat(merged@, arena[id as int].value, self@.shape);
        }
        let ghost before_own = merged@;
        merged.merge_from(&self.arena[id].value);
        proof {
            assert(self.arena@[id as int]@.value == arena[id as int].value);
            lemma_merge_wf(before_own, arena[id as int].value, self@.shape);
            let own = seq![arena[id as int].value];
            assert(own.drop_first().len() == 0);
            assert(apply_chain(merge_slots(before_own, own.first()), own.drop_first())
                == merge_slots(before_own, own.first()));
            assert(apply_chain(before_own, own) == merge_slots(before_own, own.first()));
            lemma_apply_chain_app(base, children_chains_rev(arena, cs, id as int), own);
            assert(0 <= (id as int) < arena.len());
            assert(arena[id as int].children == cs);
            assert(subtree_chain(arena, id as int) == children_chains_rev(
                arena,
                arena[id as int].children,
                id as int,
            ) + seq![arena[id as int].value]);
            assert(subtree_chain(arena, id as int) == children_chains_rev(arena, cs, id as int)
                + own);
        }
    }

    /// Merges every layer in precedence order, lays the built-in defaults
    /// beneath them, and validates the result: the complete configuration,
    /// or the error naming what stops it.  Every top-level layer must have
    /// been loaded before solidifying.
    pub fn solidify(&self) -> (r: Result<Partial, Error>)
        requires
            builder_wf(self@),
            forall|t: int| 0 <= t < self@.top.len() ==> self@.arena[#[trigger] self@.top[t]].loaded,
        ensures
            r is Ok <==> solidify_spec(self@) is Ok,
            r matches Result::Ok(p) ==> Result::<Seq<SlotV>, ErrorV>::Ok(p@) == solidify_spec(
                self@,
            ),
            r matches Result::Err(e) ==> Result::<Seq<SlotV>, ErrorV>::Err(e@) == solidify_spec(
                self@,
            ),
    {
        let ghost arena = self@.arena;
        let ghost tops = self@.top;
        if self.top.len() == 0 {
            return Result::Err(Error::SolidifyFailedNoLayers);
        }
        let mut merged = self.shape.skeleton();
        proof {
            lemma_skeleton_wf(self@.shape);
            assert(tops.subrange(self.top@.len() as int, tops.len() as int) =~= Seq::<
                int,
            >::empty());
            assert(children_chains_rev(arena, tops.subrange(tops.len() as int, tops.len() as int), -1)
                =~= Seq::<Seq<SlotV>>::empty());
        }
        let ghost base = merged@;
        let ntop = self.top.len();
        let mut t = ntop;
        while t > 0
            invariant
                builder_wf(self@),
                arena == self@.arena,
                tops == self@.top,
                t <= ntop,
                ntop == self.top@.len(),
                merged@ == apply_chain(
                    base,
                    children_chains_rev(arena, tops.subrange(t as int, ntop as int), -1),
                ),
                wf_slots(merged@, self@.shape),
            decreases t,
        {
            t = t - 1;
            let top_id = self.top[t];
            proof {
                assert(tops[t as int] == top_id as int);
                assert(0 <= top_id < arena.len());
            }
            self.merge_subtree_into(top_id, &mut merged);
            proof {
                let done = tops.subrange(t as int + 1, ntop as int);
                assert(tops.subrange(t as int, ntop as int) =~= seq![top_id as int] + done);
                assert(forall|j: int| 0 <= j < done.len() ==> -1 < #[trigger] done[j] < arena.len());
                lemma_ccr_prepend(arena, top_id as int, done, -1);
                lemma_apply_chain_app(
                    base,
                    children_chains_rev(arena, done, -1),
                    subtree_chain(arena, top_id as int),
                );
            }
        }
        proof {
            assert(tops.subrange(0, ntop as int) =~= tops);
            lemma_default_wf(self@.shape);
            lemma_wf_compat(merged@, default_slots(self@.shape), self@.shape);
        }
        let defaults = self.shape.default_layer();
        let ghost before_defaults = merged@;
        merged.merge_from(&defaults);
        proof {
            lemma_merge_wf(before_defaults, default_slots(self@.shape), self@.shape);
            assert(merged@ == merged_view(self@));
        }
        merged.solidify(&self.shape)
    }
}

} // verus!
