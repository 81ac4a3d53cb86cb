//! Merging the accepted parts' metadata into one rendering context.
use vstd::prelude::*;
use vstd::pervasive::VecAdditionalExecFns;

use crate::parts::FlakePartMetadata;
use crate::parts::InputEntry;
use crate::parts::InputEntryView;
use crate::parts::MetadataView;

verus! {

/// Insert the binding `e` into the ordered mapping `acc`: an existing
/// binding of the same key is overwritten in place, a new key is
/// appended.
pub open spec fn spec_upsert(acc: Seq<InputEntryView>, e: InputEntryView) -> Seq<InputEntryView>
    decreases acc.len(),
{
    if acc.len() == 0 {
        seq![e]
    } else if acc.first().key == e.key {
        seq![e] + acc.drop_first()
    } else {
        seq![acc.first()] + spec_upsert(acc.drop_first(), e)
    }
}

/// Insert every binding of `es` into `acc`, in order.
pub open spec fn spec_upsert_all(acc: Seq<InputEntryView>, es: Seq<InputEntryView>) -> Seq<
    InputEntryView,
>
    decreases es.len(),
{
    if es.len() == 0 {
        acc
    } else {
        spec_upsert_all(spec_upsert(acc, es.first()), es.drop_first())
    }
}

/// Fold the parts' `inputs` mappings over `acc`, in part order.
pub open spec fn spec_merge_inputs_from(acc: Seq<InputEntryView>, ms: Seq<MetadataView>) -> Seq<
    InputEntryView,
>
    decreases ms.len(),
{
    if ms.len() == 0 {
        acc
    } else {
        spec_merge_inputs_from(spec_upsert_all(acc, ms.first().inputs), ms.drop_first())
    }
}

/// The merged `inputs` mapping of an ordered metadata list: top-level
/// keys are copied in order, later parts overwriting earlier ones.
pub open spec fn spec_merge_inputs(ms: Seq<MetadataView>) -> Seq<InputEntryView> {
    spec_merge_inputs_from(Seq::empty(), ms)
}

/// The parts' trust keys, concatenated in part order, duplicates kept.
pub open spec fn spec_concat_trusted_keys(ms: Seq<MetadataView>) -> Seq<Seq<char>>
    decreases ms.len(),
{
    if ms.len() == 0 {
        Seq::empty()
    } else {
        spec_concat_trusted_keys(ms.drop_last()) + ms.last().extra_trusted_public_keys
    }
}

/// The parts' substituters, concatenated in part order, duplicates
/// kept.
pub open spec fn spec_concat_substituters(ms: Seq<MetadataView>) -> Seq<Seq<char>>
    decreases ms.len(),
{
    if ms.len() == 0 {
        Seq::empty()
    } else {
        spec_concat_substituters(ms.drop_last()) + ms.last().extra_substituters
    }
}

/// The value bound to `k` in the ordered mapping `acc`, scanning from
/// the front.
pub open spec fn spec_lookup(acc: Seq<InputEntryView>, k: Seq<char>) -> Option<serde_json::Value>
    decreases acc.len(),
{
    if acc.len() == 0 {
        None
    } else if acc.first().key == k {
        Some(acc.first().value)
    } else {
        spec_lookup(acc.drop_first(), k)
    }
}

/// The value the LAST binding of `k` in `es` carries, if any.
pub open spec fn spec_last_value_in_entries(es: Seq<InputEntryView>, k: Seq<char>) -> Option<
    serde_json::Value,
>
    decreases es.len(),
{
    if es.len() == 0 {
        None
    } else {
        match spec_last_value_in_entries(es.drop_first(), k) {
            Some(v) => Some(v),
            None => if es.first().key == k {
                Some(es.first().value)
            } else {
                None
            },
        }
    }
}

/// The value the last part of `ms` binding `k` carries, if any.
pub open spec fn spec_last_input_value(ms: Seq<MetadataView>, k: Seq<char>) -> Option<
    serde_json::Value,
>
    decreases ms.len(),
{
    if ms.len() == 0 {
        None
    } else {
        match spec_last_input_value(ms.drop_first(), k) {
            Some(v) => Some(v),
            None => spec_last_value_in_entries(ms.first().inputs, k),
        }
    }
}

/// No two bindings of the ordered mapping share a key.
pub open spec fn spec_keys_unique(acc: Seq<InputEntryView>) -> bool {
    forall|i: int, j: int| 0 <= i < j < acc.len() ==> acc[i].key != acc[j].key
}

proof fn lemma_lookup_upsert(acc: Seq<InputEntryView>, e: InputEntryView, k: Seq<char>)
    ensures
        spec_lookup(spec_upsert(acc, e), k) == (if e.key == k {
            Some(e.value)
        } else {
            spec_lookup(acc, k)
        }),
    decreases acc.len(),
{
    if acc.len() == 0 {
        assert(spec_upsert(acc, e) == seq![e]);
        assert(seq![e].first() == e);
        assert(seq![e].drop_first() =~= Seq::<InputEntryView>::empty());
        assert(spec_lookup(Seq::<InputEntryView>::empty(), k) is None);
        if e.key != k {
            assert(spec_lookup(seq![e], k) == spec_lookup(seq![e].drop_first(), k));
        }
    } else if acc.first().key == e.key {
        assert((seq![e] + acc.drop_first()).first() == e);
        assert((seq![e] + acc.drop_first()).drop_first() =~= acc.drop_first());
        if e.key != k && acc.first().key == k {
            assert(false);
        }
    } else {
        lemma_lookup_upsert(acc.drop_first(), e, k);
        assert((seq![acc.first()] + spec_upsert(acc.drop_first(), e)).first() == acc.first());
        assert((seq![acc.first()] + spec_upsert(acc.drop_first(), e)).drop_first()
            =~= spec_upsert(acc.drop_first(), e));
    }
}

proof fn lemma_lookup_upsert_all(acc: Seq<InputEntryView>, es: Seq<InputEntryView>, k: Seq<char>)
    ensures
        spec_lookup(spec_upsert_all(acc, es), k) == (match spec_last_value_in_entries(es, k) {
            Some(v) => Some(v),
            None => spec_lookup(acc, k),
        }),
    decreases es.len(),
{
    if es.len() == 0 {
    } else {
        lemma_lookup_upsert_all(spec_upsert(acc, es.first()), es.drop_first(), k);
        lemma_lookup_upsert(acc, es.first(), k);
    }
}

proof fn lemma_merge_from_last_wins(acc: Seq<InputEntryView>, ms: Seq<MetadataView>, k: Seq<char>)
    ensures
        spec_lookup(spec_merge_inputs_from(acc, ms), k) == (match spec_last_input_value(ms, k) {
            Some(v) => Some(v),
            None => spec_lookup(acc, k),
        }),
    decreases ms.len(),
{
    if ms.len() == 0 {
    } else {
        lemma_merge_from_last_wins(spec_upsert_all(acc, ms.first().inputs), ms.drop_first(), k);
        lemma_lookup_upsert_all(acc, ms.first().inputs, k);
    }
}

/// Last write wins: the merged mapping binds each key to the value
/// declared by the last part (and, within a part, the last entry) that
/// binds it.  Swapping two parts with overlapping keys therefore
/// changes which value the merge keeps.
pub proof fn lemma_merge_last_wins(ms: Seq<MetadataView>, k: Seq<char>)
    ensures
        spec_lookup(spec_merge_inputs(ms), k) == spec_last_input_value(ms, k),
{
    lemma_merge_from_last_wins(Seq::empty(), ms, k);
}

proof fn lemma_upsert_keys_unique(acc: Seq<InputEntryView>, e: InputEntryView)
    requires
        spec_keys_unique(acc),
    ensures
        spec_keys_unique(spec_upsert(acc, e)),
        forall|k: Seq<char>| #[trigger] spec_lookup(spec_upsert(acc, e), k) is Some
            <==> (spec_lookup(acc, k) is Some || e.key == k),
    decreases acc.len(),
{
    assert forall|k: Seq<char>| #[trigger] spec_lookup(spec_upsert(acc, e), k) is Some
        implies (spec_lookup(acc, k) is Some || e.key == k) by {
        lemma_lookup_upsert(acc, e, k);
    }
    assert forall|k: Seq<char>| spec_lookup(acc, k) is Some || e.key == k
        implies #[trigger] spec_lookup(spec_upsert(acc, e), k) is Some by {
        lemma_lookup_upsert(acc, e, k);
    }
    if acc.len() == 0 {
    } else if acc.first().key == e.key {
        let out = seq![e] + acc.drop_first();
        assert forall|i: int, j: int| 0 <= i < j < out.len() implies out[i].key != out[j].key by {
            assert(out[j] == acc[j]);
            if i > 0 {
                assert(out[i] == acc[i]);
            }
        }
    } else {
        assert forall|i: int, j: int| 0 <= i < j < acc.drop_first().len()
            implies acc.drop_first()[i].key != acc.drop_first()[j].key by {
            assert(acc.drop_first()[i] == acc[i + 1]);
            assert(acc.drop_first()[j] == acc[j + 1]);
        }
        lemma_upsert_keys_unique(acc.drop_first(), e);
        let rest = spec_upsert(acc.drop_first(), e);
        let out = seq![acc.first()] + rest;
        assert forall|i: int, j: int| 0 <= i < j < out.len() implies out[i].key != out[j].key by {
            if i == 0 {
                assert(rest[j - 1] == out[j]);
                assert(spec_lookup(rest, out[j].key) is Some) by {
                    lemma_lookup_entry(rest, j - 1);
                }
                lemma_lookup_upsert(acc.drop_first(), e, out[j].key);
                if out[j].key == acc.first().key {
                    if e.key == out[j].key {
                        assert(false);
                    } else {
                        assert(spec_lookup(acc.drop_first(), out[j].key) is Some);
                        lemma_lookup_means_key(acc.drop_first(), out[j].key);
                        assert(false);
                    }
                }
            } else {
                assert(out[i] == rest[i - 1]);
                assert(out[j] == rest[j - 1]);
            }
        }
    }
}

/// A binding at any index makes the key's lookup succeed.
proof fn lemma_lookup_entry(acc: Seq<InputEntryView>, i: int)
    requires
        0 <= i < acc.len(),
    ensures
        spec_lookup(acc, acc[i].key) is Some,
    decreases acc.len(),
{
    if acc.first().key == acc[i].key {
    } else {
        assert(acc.drop_first()[i - 1] == acc[i]);
        lemma_lookup_entry(acc.drop_first(), i - 1);
    }
}

/// A successful lookup means some binding carries the key.
proof fn lemma_lookup_means_key(acc: Seq<InputEntryView>, k: Seq<char>)
    requires
        spec_lookup(acc, k) is Some,
    ensures
        exists|i: int| 0 <= i < acc.len() && acc[i].key == k,
    decreases acc.len(),
{
    if acc.len() == 0 {
    } else if acc.first().key == k {
        assert(acc[0].key == k);
    } else {
        lemma_lookup_means_key(acc.drop_first(), k);
        let i = choose|i: int| 0 <= i < acc.drop_first().len() && acc.drop_first()[i].key == k;
        assert(acc[i + 1].key == k);
    }
}

proof fn lemma_upsert_all_keys_unique(acc: Seq<InputEntryView>, es: Seq<InputEntryView>)
    requires
        spec_keys_unique(acc),
    ensures
        spec_keys_unique(spec_upsert_all(acc, es)),
    decreases es.len(),
{
    if es.len() == 0 {
    } else {
        lemma_upsert_keys_unique(acc, es.first());
        lemma_upsert_all_keys_unique(spec_upsert(acc, es.first()), es.drop_first());
    }
}

proof fn lemma_merge_from_keys_unique(acc: Seq<InputEntryView>, ms: Seq<MetadataView>)
    requires
        spec_keys_unique(acc),
    ensures
        spec_keys_unique(spec_merge_inputs_from(acc, ms)),
    decreases ms.len(),
{
    if ms.len() == 0 {
    } else {
        lemma_upsert_all_keys_unique(acc, ms.first().inputs);
        lemma_merge_from_keys_unique(spec_upsert_all(acc, ms.first().inputs), ms.drop_first());
    }
}

/// The merged mapping never binds a key twice, whatever the parts
/// declared.
pub proof fn lemma_merge_keys_unique(ms: Seq<MetadataView>)
    ensures
        spec_keys_unique(spec_merge_inputs(ms)),
{
    lemma_merge_from_keys_unique(Seq::empty(), ms);
}

/// The merged `inputs` context handed to the template renderer.
pub struct FlakeInputsContext {
    pub inputs: Vec<InputEntry>,
}

pub struct FlakeInputsContextView {
    pub inputs: Seq<InputEntryView>,
}

impl View for FlakeInputsContext {
    type V = FlakeInputsContextView;

    open spec fn view(&self) -> FlakeInputsContextView {
        FlakeInputsContextView { inputs: self.inputs.deep_view() }
    }
}

/// A binding of `e`'s key in `acc` is overwritten in place; otherwise
/// `e` is appended.
#[verifier::loop_isolation(false)]
fn upsert_entry(acc: &mut Vec<InputEntry>, e: &InputEntry)
    ensures
        final(acc).deep_view() == spec_upsert(old(acc).deep_view(), e@),
{
    let ghost accv = acc.deep_view();
    let mut i: usize = 0;
    while i < acc.len()
        invariant
            i <= acc@.len(),
            acc.deep_view() == accv,
            forall|j: int| 0 <= j < i ==> accv[j].key != e@.key,
        decreases acc@.len() - i,
    {
        if acc[i].key.eq(&e.key) {
            proof {
                assert(accv[i as int].key == e@.key);
            }
            acc.set(i, e.clone());
            proof {
                assert(acc.deep_view() =~= accv.update(i as int, e@));
                lemma_upsert_found(accv, e@, i as int);
            }
            return ;
        }
        i = i + 1;
    }
    acc.push(e.clone());
    proof {
        assert(acc.deep_view() =~= accv.push(e@));
        lemma_upsert_absent(accv, e@);
    }
}

/// When `j` is the first index binding `e`'s key, upserting overwrites
/// exactly there.
proof fn lemma_upsert_found(acc: Seq<InputEntryView>, e: InputEntryView, j: int)
    requires
        0 <= j < acc.len(),
        acc[j].key == e.key,
        forall|i: int| 0 <= i < j ==> acc[i].key != e.key,
    ensures
        spec_upsert(acc, e) == acc.update(j, e),
    decreases acc.len(),
{
    if j == 0 {
        assert(spec_upsert(acc, e) =~= acc.update(0, e));
    } else {
        assert forall|i: int| 0 <= i < j - 1 implies acc.drop_first()[i].key != e.key by {
            assert(acc.drop_first()[i] == acc[i + 1]);
        }
        assert(acc.drop_first()[j - 1] == acc[j]);
        lemma_upsert_found(acc.drop_first(), e, j - 1);
        assert(spec_upsert(acc, e) =~= acc.update(j, e)) by {
            assert(spec_upsert(acc, e) == seq![acc.first()] + acc.drop_first().update(j - 1, e));
        }
    }
}

/// When no binding carries `e`'s key, upserting appends.
proof fn lemma_upsert_absent(acc: Seq<InputEntryView>, e: InputEntryView)
    requires
        forall|i: int| 0 <= i < acc.len() ==> acc[i].key != e.key,
    ensures
        spec_upsert(acc, e) == acc.push(e),
    decreases acc.len(),
{
    if acc.len() == 0 {
        assert(spec_upsert(acc, e) =~= acc.push(e));
    } else {
        assert(acc[0].key != e.key);
        assert forall|i: int| 0 <= i < acc.drop_first().len()
            implies acc.drop_first()[i].key != e.key by {
            assert(acc.drop_first()[i] == acc[i + 1]);
        }
        lemma_upsert_absent(acc.drop_first(), e);
        assert(spec_upsert(acc, e) =~= acc.push(e)) by {
            assert(spec_upsert(acc, e) == seq![acc.first()] + acc.drop_first().push(e));
        }
    }
}

impl FlakeInputsContext {
    pub fn new(inputs: Vec<InputEntry>) -> (r: Self)
        ensures
            r.inputs == inputs,
    {
        FlakeInputsContext { inputs }
    }

    /// Merge the parts' `inputs` mappings in order: each top-level key
    /// is copied into the accumulator, overwriting any earlier binding
    /// of the same key.
    #[verifier::loop_isolation(false)]
    pub fn from_merged_metadata(metadata: &Vec<FlakePartMetadata>) -> (r: Self)
        ensures
            r@.inputs == spec_merge_inputs(metadata.deep_view()),
    {
        let ghost msv = metadata.deep_view();
        let mut acc: Vec<InputEntry> = Vec::new();
        let mut mi: usize = 0;
        proof {
            assert(acc.deep_view() =~= Seq::<InputEntryView>::empty());
            assert(msv.skip(0) =~= msv);
        }
        while mi < metadata.len()
            invariant
                mi <= metadata@.len(),
                spec_merge_inputs_from(acc.deep_view(), msv.skip(mi as int)) == spec_merge_inputs(
                    msv,
                ),
            decreases metadata@.len() - mi,
        {
            let m = &metadata[mi];
            let ghost mv = msv[mi as int];
            let entries_len = m.inputs.len();
            let mut ei: usize = 0;
            proof {
                assert(mv.inputs.skip(0) =~= mv.inputs);
                assert(msv.skip(mi as int).first() == mv);
                assert(msv.skip(mi as int).drop_first() =~= msv.skip(mi + 1));
            }
            while ei < entries_len
                invariant
                    ei <= entries_len,
                    entries_len == mv.inputs.len(),
                    spec_merge_inputs_from(
                        spec_upsert_all(acc.deep_view(), mv.inputs.skip(ei as int)),
                        msv.skip(mi + 1),
                    ) == spec_merge_inputs(msv),
                decreases entries_len - ei,
            {
                let e = &m.inputs[ei];
                proof {
                    assert(mv.inputs.skip(ei as int).first() == mv.inputs[ei as int]);
                    assert(mv.inputs.skip(ei as int).drop_first() =~= mv.inputs.skip(ei + 1));
                    assert(e@ == mv.inputs[ei as int]);
                }
                upsert_entry(&mut acc, e);
                ei = ei + 1;
            }
            proof {
                assert(mv.inputs.skip(entries_len as int) =~= Seq::<InputEntryView>::empty());
                assert(msv.skip(mi as int).first() == mv);
                assert(msv.skip(mi as int).drop_first() =~= msv.skip(mi + 1));
            }
            mi = mi + 1;
        }
        proof {
            assert(msv.skip(metadata@.len() as int) =~= Seq::<MetadataView>::empty());
        }
        FlakeInputsContext { inputs: acc }
    }
}

/// The full rendering context: merged inputs plus the concatenated
/// trust keys and substituters.
pub struct FlakeContext {
    pub flake_inputs_context: FlakeInputsContext,
    pub extra_trusted_public_keys: Vec<String>,
    pub extra_substituters: Vec<String>,
}

pub struct FlakeContextView {
    pub flake_inputs_context: FlakeInputsContextView,
    pub extra_trusted_public_keys: Seq<Seq<char>>,
    pub extra_substituters: Seq<Seq<char>>,
}

impl View for FlakeContext {
    type V = FlakeContextView;

    open spec fn view(&self) -> FlakeContextView {
        FlakeContextView {
            flake_inputs_context: self.flake_inputs_context@,
            extra_trusted_public_keys: self.extra_trusted_public_keys.deep_view(),
            extra_substituters: self.extra_substituters.deep_view(),
        }
    }
}

impl FlakeContext {
    pub fn new(
        flake_inputs_context: FlakeInputsContext,
        extra_trusted_public_keys: Vec<String>,
        extra_substituters: Vec<String>,
    ) -> (r: Self)
        ensures
            r.flake_inputs_context == flake_inputs_context,
            r.extra_trusted_public_keys == extra_trusted_public_keys,
            r.extra_substituters == extra_substituters,
    {
        FlakeContext { flake_inputs_context, extra_trusted_public_keys, extra_substituters }
    }

    /// Merge an ordered metadata list into a full rendering context:
    /// inputs by overwrite-merge, trust keys and substituters by plain
    /// concatenation.
    #[verifier::loop_isolation(false)]
    pub fn from_merged_metadata(metadata: &Vec<FlakePartMetadata>) -> (r: Self)
        ensures
            r@.flake_inputs_context.inputs == spec_merge_inputs(metadata.deep_view()),
            r@.extra_trusted_public_keys == spec_concat_trusted_keys(metadata.deep_view()),
            r@.extra_substituters == spec_concat_substituters(metadata.deep_view()),
    {
        let ghost msv = metadata.deep_view();
        let flake_inputs_context = FlakeInputsContext::from_merged_metadata(metadata);

        let mut extra_trusted_public_keys: Vec<String> = Vec::new();
        let mut mi: usize = 0;
        proof {
            assert(extra_trusted_public_keys.deep_view() =~= spec_concat_trusted_keys(msv.take(0)));
        }
        while mi < metadata.len()
            invariant
                mi <= metadata@.len(),
                extra_trusted_public_keys.deep_view() == spec_concat_trusted_keys(
                    msv.take(mi as int),
                ),
            decreases metadata@.len() - mi,
        {
            let m = &metadata[mi];
            let ghost mv = msv[mi as int];
            let ghost before = extra_trusted_public_keys.deep_view();
            let mut ki: usize = 0;
            proof {
                assert(before + mv.extra_trusted_public_keys.take(0) =~= before);
            }
            while ki < m.extra_trusted_public_keys.len()
                invariant
                    ki <= mv.extra_trusted_public_keys.len(),
                    m == &metadata[mi as int],
                    extra_trusted_public_keys.deep_view() == before
                        + mv.extra_trusted_public_keys.take(ki as int),
                decreases mv.extra_trusted_public_keys.len() - ki,
            {
                let ghost donev = extra_trusted_public_keys.deep_view();
                extra_trusted_public_keys.push(m.extra_trusted_public_keys[ki].clone());
                proof {
                    assert(extra_trusted_public_keys.deep_view() =~= donev.push(
                        mv.extra_trusted_public_keys[ki as int],
                    ));
                    assert(mv.extra_trusted_public_keys.take(ki + 1)
                        =~= mv.extra_trusted_public_keys.take(ki as int).push(
                        mv.extra_trusted_public_keys[ki as int],
                    ));
                }
                ki = ki + 1;
            }
            proof {
                assert(mv.extra_trusted_public_keys.take(mv.extra_trusted_public_keys.len() as int)
                    =~= mv.extra_trusted_public_keys);
                assert(msv.take(mi + 1).drop_last() =~= msv.take(mi as int));
                assert(msv.take(mi + 1).last() == mv);
                assert(extra_trusted_public_keys.deep_view() =~= spec_concat_trusted_keys(
                    msv.take(mi + 1),
                ));
            }
            mi = mi + 1;
        }
        proof {
            assert(msv.take(metadata@.len() as int) =~= msv);
        }

        let mut extra_substituters: Vec<String> = Vec::new();
        let mut mj: usize = 0;
        proof {
            assert(extra_substituters.deep_view() =~= spec_concat_substituters(msv.take(0)));
        }
        while mj < metadata.len()
            invariant
                mj <= metadata@.len(),
                extra_substituters.deep_view() == spec_concat_substituters(msv.take(mj as int)),
            decreases metadata@.len() - mj,
        {
            let m = &metadata[mj];
            let ghost mv = msv[mj as int];
            let ghost before = extra_substituters.deep_view();
            let mut sj: usize = 0;
            proof {
                assert(before + mv.extra_substituters.take(0) =~= before);
            }
            while sj < m.extra_substituters.len()
                invariant
                    sj <= mv.extra_substituters.len(),
                    m == &metadata[mj as int],
                    extra_substituters.deep_view() == before + mv.extra_substituters.take(
                        sj as int,
                    ),
                decreases mv.extra_substituters.len() - sj,
            {
                let ghost donev = extra_substituters.deep_view();
                extra_substituters.push(m.extra_substituters[sj].clone());
                proof {
                    assert(extra_substituters.deep_view() =~= donev.push(
                        mv.extra_substituters[sj as int],
                    ));
                    assert(mv.extra_substituters.take(sj + 1) =~= mv.extra_substituters.take(
                        sj as int,
                    ).push(mv.extra_substituters[sj as int]));
                }
                sj = sj + 1;
            }
            proof {
                assert(mv.extra_substituters.take(mv.extra_substituters.len() as int)
                    =~= mv.extra_substituters);
                assert(msv.take(mj + 1).drop_last() =~= msv.take(mj as int));
                assert(msv.take(mj + 1).last() == mv);
                assert(extra_substituters.deep_view() =~= spec_concat_substituters(
                    msv.take(mj + 1),
                ));
            }
            mj = mj + 1;
        }
        proof {
            assert(msv.take(metadata@.len() as int) =~= msv);
        }

        FlakeContext { flake_inputs_context, extra_trusted_public_keys, extra_substituters }
    }
}

} // verus!
