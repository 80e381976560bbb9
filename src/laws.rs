//! What holds of the substitute table across its operations.

use vstd::prelude::*;
use crate::absolute::{ErrorModel, plain_segments};
use crate::path::{
    PathModel, SegmentModel, path_key, segment_key, segments_key, spec_is_absolute,
    spec_type_args, strip,
};
use crate::substitutes::{
    SlotModel, SubstituteModel, default_substitutes, effective_params, ingest, is_first_match,
    last_generic, namespace_generic, resolve_slot, slot_for, spec_has_generics,
    spec_lookup, template_of, under, lemma_template_err_prefix,
};

verus! {

/// A fresh table maps each of the ten default source keys to its target, passing the
/// caller's generic arguments through, and every one of those targets is absolute.
pub proof fn lemma_defaults(root: PathModel, caller: Seq<PathModel>)
    requires
        spec_is_absolute(root),
    ensures
        ({
            let m = default_substitutes(root);
            &&& spec_lookup(m, "bitvec::order::Lsb0"@, caller) == Some(
                (under(root, seq!["utils", "bits", "Lsb0"]), caller),
            )
            &&& spec_lookup(m, "bitvec::order::Msb0"@, caller) == Some(
                (under(root, seq!["utils", "bits", "Msb0"]), caller),
            )
            &&& spec_lookup(m, "sp_core::crypto::AccountId32"@, caller) == Some(
                (under(root, seq!["ext", "sp_core", "crypto", "AccountId32"]), caller),
            )
            &&& spec_lookup(m, "primitive_types::H160"@, caller) == Some(
                (under(root, seq!["ext", "sp_core", "H160"]), caller),
            )
            &&& spec_lookup(m, "primitive_types::H256"@, caller) == Some(
                (under(root, seq!["ext", "sp_core", "H256"]), caller),
            )
            &&& spec_lookup(m, "primitive_types::H512"@, caller) == Some(
                (under(root, seq!["ext", "sp_core", "H512"]), caller),
            )
            &&& spec_lookup(m, "sp_runtime::multiaddress::MultiAddress"@, caller) == Some(
                (under(root, seq!["ext", "sp_runtime", "MultiAddress"]), caller),
            )
            &&& spec_lookup(m, "frame_support::traits::misc::WrapperKeepOpaque"@, caller) == Some(
                (under(root, seq!["utils", "WrapperKeepOpaque"]), caller),
            )
            &&& spec_lookup(m, "BTreeMap"@, caller) == Some(
                (under(root, seq!["utils", "KeyedVec"]), caller),
            )
            &&& spec_lookup(m, "BTreeSet"@, caller) == Some(
                (
                    PathModel {
                        leading_colon: true,
                        segments: plain_segments(seq!["std", "vec", "Vec"]),
                    },
                    caller,
                ),
            )
            &&& forall|k: Seq<char>| #[trigger] m.contains_key(k) ==> spec_is_absolute(m[k].target)
        }),
{
    reveal_strlit("bitvec::order::Lsb0");
    reveal_strlit("bitvec::order::Msb0");
    reveal_strlit("sp_core::crypto::AccountId32");
    reveal_strlit("primitive_types::H160");
    reveal_strlit("primitive_types::H256");
    reveal_strlit("primitive_types::H512");
    reveal_strlit("sp_runtime::multiaddress::MultiAddress");
    reveal_strlit("frame_support::traits::misc::WrapperKeepOpaque");
    reveal_strlit("BTreeMap");
    reveal_strlit("BTreeSet");
    let m = default_substitutes(root);
    assert("bitvec::order::Lsb0"@.len() == 19);
    assert("bitvec::order::Msb0"@.len() == 19);
    assert("sp_core::crypto::AccountId32"@.len() == 28);
    assert("primitive_types::H160"@.len() == 21);
    assert("primitive_types::H256"@.len() == 21);
    assert("primitive_types::H512"@.len() == 21);
    assert("sp_runtime::multiaddress::MultiAddress"@.len() == 38);
    assert("frame_support::traits::misc::WrapperKeepOpaque"@.len() == 46);
    assert("BTreeMap"@.len() == 8);
    assert("BTreeSet"@.len() == 8);
    assert("bitvec::order::Lsb0"@[15] != "bitvec::order::Msb0"@[15]);
    assert("primitive_types::H160"@[18] != "primitive_types::H256"@[18]);
    assert("primitive_types::H160"@[18] != "primitive_types::H512"@[18]);
    assert("primitive_types::H256"@[18] != "primitive_types::H512"@[18]);
    assert("BTreeMap"@[5] != "BTreeSet"@[5]);
    assert forall|names: Seq<&str>| #[trigger] spec_is_absolute(under(root, names)) by {
        if root.segments.len() > 0 {
            assert(under(root, names).segments[0] == root.segments[0]);
        }
    }
    assert forall|k: Seq<char>| #[trigger] m.contains_key(k) implies spec_is_absolute(m[k].target) by {
        assert(spec_is_absolute(under(root, seq!["utils", "bits", "Lsb0"])));
        assert(spec_is_absolute(under(root, seq!["utils", "bits", "Msb0"])));
        assert(spec_is_absolute(under(root, seq!["ext", "sp_core", "crypto", "AccountId32"])));
        assert(spec_is_absolute(under(root, seq!["ext", "sp_core", "H160"])));
        assert(spec_is_absolute(under(root, seq!["ext", "sp_core", "H256"])));
        assert(spec_is_absolute(under(root, seq!["ext", "sp_core", "H512"])));
        assert(spec_is_absolute(under(root, seq!["ext", "sp_runtime", "MultiAddress"])));
        assert(spec_is_absolute(under(root, seq!["utils", "WrapperKeepOpaque"])));
        assert(spec_is_absolute(under(root, seq!["utils", "KeyedVec"])));
    }
}

proof fn lemma_segments_key_up_to_space(a: Seq<SegmentModel>, b: Seq<SegmentModel>)
    requires
        a.len() == b.len(),
        forall|i: int|
            0 <= i < a.len() ==> strip(#[trigger] a[i].ident) == strip(b[i].ident) && a[i].arguments
                == b[i].arguments,
    ensures
        segments_key(a) == segments_key(b),
    decreases a.len(),
{
    if a.len() > 0 {
        lemma_segments_key_up_to_space(a.drop_last(), b.drop_last());
        assert(strip(a.last().ident) == strip(b.last().ident));
        assert(segment_key(a.last()) == segment_key(b.last()));
    }
}

/// Two paths whose segment names differ only in whitespace, and that agree in all else,
/// have one key, so every table looks them up alike.
pub proof fn lemma_key_normalization(
    m: Map<Seq<char>, SubstituteModel>,
    p: PathModel,
    q: PathModel,
    caller: Seq<PathModel>,
)
    requires
        p.leading_colon == q.leading_colon,
        p.segments.len() == q.segments.len(),
        forall|i: int|
            0 <= i < p.segments.len() ==> strip(#[trigger] p.segments[i].ident) == strip(
                q.segments[i].ident,
            ) && p.segments[i].arguments == q.segments[i].arguments,
    ensures
        path_key(p) == path_key(q),
        spec_lookup(m, path_key(p), caller) == spec_lookup(m, path_key(q), caller),
{
    lemma_segments_key_up_to_space(p.segments, q.segments);
}

/// A key that the table does not hold looks up to nothing.
pub proof fn lemma_absent(m: Map<Seq<char>, SubstituteModel>, key: Seq<char>, caller: Seq<PathModel>)
    requires
        !m.contains_key(key),
    ensures
        spec_lookup(m, key, caller) is None,
{
}

/// An accepted entry replaces whatever its key held before: a lookup then gives the
/// new target and the new template, and none (the caller's arguments) when the source
/// has no generic arguments.
pub proof fn lemma_overwrite(
    m: Map<Seq<char>, SubstituteModel>,
    source: PathModel,
    target: PathModel,
    caller: Seq<PathModel>,
)
    requires
        ingest(source, target) is Ok,
    ensures
        ({
            let (k, e) = ingest(source, target)->Ok_0;
            &&& k == path_key(source)
            &&& spec_lookup(m.insert(k, e), path_key(source), caller) == Some(
                (target, effective_params(e.template, caller)),
            )
            &&& spec_type_args(source.segments.last().arguments).len() == 0 ==> e.template is None
                && spec_lookup(m.insert(k, e), path_key(source), caller) == Some((target, caller))
        }),
{
}

proof fn lemma_last_generic_found(s: Seq<SegmentModel>, i: int)
    requires
        0 <= i < s.len(),
        spec_has_generics(s[i].arguments),
    ensures
        last_generic(s) is Some,
    decreases s.len(),
{
    if i < s.len() - 1 && !spec_has_generics(s.last().arguments) {
        assert(s.drop_last()[i] == s[i]);
        lemma_last_generic_found(s.drop_last(), i);
    }
}

/// A source whose namespace (any segment but the last) has generic arguments is refused
/// with `GenericInNamespace`.
pub proof fn lemma_namespace_guard(source: PathModel, target: PathModel, i: int)
    requires
        0 <= i < source.segments.len() - 1,
        spec_has_generics(source.segments[i].arguments),
    ensures
        ingest(source, target) matches Err(ErrorModel::GenericInNamespace(_)),
{
    assert(source.segments.drop_last()[i] == source.segments[i]);
    lemma_last_generic_found(source.segments.drop_last(), i);
}

proof fn lemma_first_match_exists(s: Seq<PathModel>, x: PathModel)
    requires
        s.contains(x),
    ensures
        exists|j: int| is_first_match(s, x, j),
    decreases s.len(),
{
    if s[0] == x {
        assert(is_first_match(s, x, 0));
    } else {
        let t = s.subrange(1, s.len() as int);
        let k = choose|k: int| 0 <= k < s.len() && s[k] == x;
        assert(t[k - 1] == x);
        lemma_first_match_exists(t, x);
        let j = choose|j: int| is_first_match(t, x, j);
        assert forall|l: int| 0 <= l < j + 1 implies s[l] != x by {
            if l > 0 {
                assert(s[l] == t[l - 1]);
            }
        }
        assert(is_first_match(s, x, j + 1));
    }
}

proof fn lemma_template_slots(sa: Seq<PathModel>, ta: Seq<PathModel>)
    requires
        template_of(sa, ta) is Ok,
    ensures
        template_of(sa, ta)->Ok_0.len() == ta.len(),
        forall|i: int|
            0 <= i < ta.len() ==> slot_for(sa, #[trigger] ta[i]) == Some(
                template_of(sa, ta)->Ok_0[i],
            ),
    decreases ta.len(),
{
    if ta.len() > 0 {
        lemma_template_slots(sa, ta.drop_last());
        let t = template_of(sa, ta)->Ok_0;
        assert forall|i: int| 0 <= i < ta.len() implies slot_for(sa, #[trigger] ta[i]) == Some(t[i]) by {
            if i < ta.len() - 1 {
                assert(ta.drop_last()[i] == ta[i]);
            }
        }
    }
}

/// The generic arguments a template yields: one per target argument, in order. A target
/// argument that is a source parameter yields the caller's argument at that parameter's
/// (first) position; any other, which is absolute, yields itself whatever the caller gave.
pub proof fn lemma_template_resolution(sa: Seq<PathModel>, ta: Seq<PathModel>, caller: Seq<PathModel>)
    requires
        template_of(sa, ta) is Ok,
        caller.len() == sa.len(),
    ensures
        ({
            let eff = effective_params(Some(template_of(sa, ta)->Ok_0), caller);
            &&& eff.len() == ta.len()
            &&& forall|i: int|
                0 <= i < ta.len() ==> if sa.contains(#[trigger] ta[i]) {
                    exists|j: int| is_first_match(sa, ta[i], j) && eff[i] == caller[j]
                } else {
                    spec_is_absolute(ta[i]) && eff[i] == ta[i]
                }
        }),
{
    lemma_template_slots(sa, ta);
    let t = template_of(sa, ta)->Ok_0;
    let eff = effective_params(Some(t), caller);
    assert forall|i: int| 0 <= i < ta.len() implies if sa.contains(#[trigger] ta[i]) {
        exists|j: int| is_first_match(sa, ta[i], j) && eff[i] == caller[j]
    } else {
        spec_is_absolute(ta[i]) && eff[i] == ta[i]
    } by {
        assert(slot_for(sa, ta[i]) == Some(t[i]));
        if sa.contains(ta[i]) {
            lemma_first_match_exists(sa, ta[i]);
            let j = choose|j: int| is_first_match(sa, ta[i], j);
            assert(eff[i] == resolve_slot(t[i], caller));
            assert(eff[i] == caller[j]);
        }
    }
}

/// A target `<B, A>` over a source `<A, B>` swaps the caller's two arguments.
pub proof fn lemma_swapped_params(a: PathModel, b: PathModel, x: PathModel, y: PathModel)
    requires
        a != b,
    ensures
        template_of(seq![a, b], seq![b, a]) is Ok,
        effective_params(Some(template_of(seq![a, b], seq![b, a])->Ok_0), seq![x, y]) == seq![
            y,
            x,
        ],
{
    let sa = seq![a, b];
    let ta = seq![b, a];
    assert(is_first_match(sa, b, 1));
    assert(is_first_match(sa, a, 0));
    assert(sa.contains(a) && sa.contains(b));
    assert forall|j: int| is_first_match(sa, b, j) implies j == 1 by {}
    assert forall|j: int| is_first_match(sa, a, j) implies j == 0 by {}
    assert(ta.drop_last() =~= seq![b]);
    assert(ta.drop_last().drop_last() =~= Seq::<PathModel>::empty());
    let sb = SlotModel::PassThrough { index: 1, name: b };
    let sl = SlotModel::PassThrough { index: 0, name: a };
    assert(slot_for(sa, b) == Some(sb));
    assert(slot_for(sa, a) == Some(sl));
    assert(template_of(sa, Seq::<PathModel>::empty()) == Ok::<Seq<SlotModel>, PathModel>(Seq::empty()));
    assert(template_of(sa, seq![b]) == Ok::<Seq<SlotModel>, PathModel>(Seq::<SlotModel>::empty().push(sb)));
    assert(template_of(sa, ta) == Ok::<Seq<SlotModel>, PathModel>(Seq::<SlotModel>::empty().push(sb).push(sl)));
    let t = template_of(sa, ta)->Ok_0;
    assert(resolve_slot(sb, seq![x, y]) == y);
    assert(resolve_slot(sl, seq![x, y]) == x);
    assert(effective_params(Some(t), seq![x, y]) =~= seq![y, x]);
}

/// A generic source whose target has an argument that is neither a source parameter
/// nor absolute is refused with `UnresolvedGeneric`.
pub proof fn lemma_unresolved_generic(source: PathModel, target: PathModel, i: int)
    requires
        namespace_generic(source) is None,
        source.segments.len() > 0,
        target.segments.len() > 0,
        spec_type_args(source.segments.last().arguments).len() > 0,
        0 <= i < spec_type_args(target.segments.last().arguments).len(),
        !spec_type_args(source.segments.last().arguments).contains(
            spec_type_args(target.segments.last().arguments)[i],
        ),
        !spec_is_absolute(spec_type_args(target.segments.last().arguments)[i]),
    ensures
        ingest(source, target) matches Err(ErrorModel::UnresolvedGeneric(_)),
{
    let sa = spec_type_args(source.segments.last().arguments);
    let ta = spec_type_args(target.segments.last().arguments);
    assert(ta.take(i + 1).drop_last() =~= ta.take(i));
    assert(ta.take(i + 1).last() == ta[i]);
    assert(slot_for(sa, ta[i]) is None);
    assert(template_of(sa, ta.take(i + 1)) is Err);
    lemma_template_err_prefix(sa, ta, i + 1);
}

} // verus!
