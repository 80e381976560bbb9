//! The substitute table: its defaults, the ingestion of user entries and lookup.

use vstd::prelude::*;
use crate::absolute::{AbsoluteTypePath, ErrorModel, SubstituteError, plain_segments};
use crate::path::{
    ArgumentsModel, PathArguments, PathModel, SegmentModel, TypePath, is_absolute,
    key_of, lemma_segments_model, push_chars, path_eq, path_key, segments_model, spec_is_absolute,
    spec_type_args, type_args,
};

verus! {

/// One position of the generic argument list of a target.
#[derive(Debug, PartialEq, Eq)]
pub enum ParameterSlot {
    /// The caller's argument at `index`, the position of the source parameter `name`.
    PassThrough { index: usize, name: TypePath },
    /// A fixed absolute type.
    Concrete(TypePath),
}

/// The mathematical form of a slot.
pub enum SlotModel {
    PassThrough { index: nat, name: PathModel },
    Concrete(PathModel),
}

impl View for ParameterSlot {
    type V = SlotModel;

    open spec fn view(&self) -> SlotModel {
        match self {
            ParameterSlot::PassThrough { index, name } => SlotModel::PassThrough {
                index: *index as nat,
                name: name@,
            },
            ParameterSlot::Concrete(p) => SlotModel::Concrete(p@),
        }
    }
}

/// What is stored for one source key: the target and, where the source is generic,
/// how the target's generic arguments are built.
pub struct SubstituteModel {
    pub target: PathModel,
    pub template: Option<Seq<SlotModel>>,
}

/// Every concrete slot of the template is absolute.
pub open spec fn template_wf(t: Option<Seq<SlotModel>>) -> bool {
    match t {
        None => true,
        Some(s) => forall|j: int|
            0 <= j < s.len() ==> (#[trigger] s[j] matches SlotModel::Concrete(p) ==> spec_is_absolute(p)),
    }
}

/// The models of a list of slots.
pub open spec fn slots_model(s: Seq<ParameterSlot>) -> Seq<SlotModel> {
    s.map_values(|x: ParameterSlot| x@)
}

/// The models of a list of paths.
pub open spec fn paths_model(s: Seq<TypePath>) -> Seq<PathModel> {
    s.map_values(|x: TypePath| x@)
}

/// The models of a list of borrowed paths.
pub open spec fn refs_model(s: Seq<&TypePath>) -> Seq<PathModel> {
    s.map_values(|x: &TypePath| x@)
}

/// The argument a slot stands for, given the caller's arguments.
pub open spec fn resolve_slot(s: SlotModel, caller: Seq<PathModel>) -> PathModel {
    match s {
        SlotModel::PassThrough { index, name } => if index < caller.len() {
            caller[index as int]
        } else {
            name
        },
        SlotModel::Concrete(p) => p,
    }
}

/// The generic arguments to emit: the caller's own where there is no template.
pub open spec fn effective_params(template: Option<Seq<SlotModel>>, caller: Seq<PathModel>) -> Seq<
    PathModel,
> {
    match template {
        None => caller,
        Some(t) => t.map_values(|s: SlotModel| resolve_slot(s, caller)),
    }
}

/// What a lookup of `key` gives on table `m`.
pub open spec fn spec_lookup(
    m: Map<Seq<char>, SubstituteModel>,
    key: Seq<char>,
    caller: Seq<PathModel>,
) -> Option<(PathModel, Seq<PathModel>)> {
    if m.contains_key(key) {
        Some((m[key].target, effective_params(m[key].template, caller)))
    } else {
        None
    }
}

/// Whether a segment's arguments count as generic: `<>` does not, `(..)` does.
pub open spec fn spec_has_generics(a: ArgumentsModel) -> bool {
    match a {
        ArgumentsModel::Bare => false,
        ArgumentsModel::AngleBracketed(s) => s.len() > 0,
        ArgumentsModel::Parenthesized(_) => true,
    }
}

/// The last segment of `s` with generic arguments, if any.
pub open spec fn last_generic(s: Seq<SegmentModel>) -> Option<SegmentModel>
    decreases s.len(),
{
    if s.len() == 0 {
        None
    } else if spec_has_generics(s.last().arguments) {
        Some(s.last())
    } else {
        last_generic(s.drop_last())
    }
}

/// The last namespace segment (any but the final one) of `p` that has generic arguments.
pub open spec fn namespace_generic(p: PathModel) -> Option<SegmentModel> {
    if p.segments.len() == 0 {
        None
    } else {
        last_generic(p.segments.drop_last())
    }
}

/// `j` is the first position of `x` in `s`.
pub open spec fn is_first_match(s: Seq<PathModel>, x: PathModel, j: int) -> bool {
    &&& 0 <= j < s.len()
    &&& s[j] == x
    &&& forall|k: int| 0 <= k < j ==> s[k] != x
}

/// The slot for one target argument, or `None` when it cannot be resolved.
pub open spec fn slot_for(source_args: Seq<PathModel>, arg: PathModel) -> Option<SlotModel> {
    if source_args.contains(arg) {
        Some(
            SlotModel::PassThrough {
                index: (choose|j: int| is_first_match(source_args, arg, j)) as nat,
                name: arg,
            },
        )
    } else if spec_is_absolute(arg) {
        Some(SlotModel::Concrete(arg))
    } else {
        None
    }
}

/// The template for the target arguments, or the first one that cannot be resolved.
pub open spec fn template_of(source_args: Seq<PathModel>, target_args: Seq<PathModel>) -> Result<
    Seq<SlotModel>,
    PathModel,
>
    decreases target_args.len(),
{
    if target_args.len() == 0 {
        Ok(Seq::empty())
    } else {
        match template_of(source_args, target_args.drop_last()) {
            Err(a) => Err(a),
            Ok(t) => match slot_for(source_args, target_args.last()) {
                Some(x) => Ok(t.push(x)),
                None => Err(target_args.last()),
            },
        }
    }
}

/// What one entry `(source, target)` adds to a table: its key and substitute, or the error.
pub open spec fn ingest(source: PathModel, target: PathModel) -> Result<
    (Seq<char>, SubstituteModel),
    ErrorModel,
> {
    match namespace_generic(source) {
        Some(g) => Err(ErrorModel::GenericInNamespace(g)),
        None => if source.segments.len() == 0 || target.segments.len() == 0 {
            Err(ErrorModel::EmptyPath)
        } else {
            let source_args = spec_type_args(source.segments.last().arguments);
            let target_args = spec_type_args(target.segments.last().arguments);
            if source_args.len() == 0 {
                Ok((path_key(source), SubstituteModel { target, template: None }))
            } else {
                match template_of(source_args, target_args) {
                    Ok(t) => Ok((path_key(source), SubstituteModel { target, template: Some(t) })),
                    Err(a) => Err(ErrorModel::UnresolvedGeneric(a)),
                }
            }
        },
    }
}

/// The table after the entries of `s` are taken in order, up to the first one refused,
/// and the error of that one.
pub open spec fn ingest_all(m: Map<Seq<char>, SubstituteModel>, s: Seq<(PathModel, PathModel)>) -> (
    Map<Seq<char>, SubstituteModel>,
    Option<ErrorModel>,
)
    decreases s.len(),
{
    if s.len() == 0 {
        (m, None)
    } else {
        let (m2, e) = ingest_all(m, s.drop_last());
        if e is Some {
            (m2, e)
        } else {
            match ingest(s.last().0, s.last().1) {
                Ok((k, v)) => (m2.insert(k, v), None),
                Err(err) => (m2, Some(err)),
            }
        }
    }
}

/// The models of a list of entries.
pub open spec fn pairs_model(s: Seq<(TypePath, AbsoluteTypePath)>) -> Seq<(PathModel, PathModel)> {
    s.map_values(|e: (TypePath, AbsoluteTypePath)| (e.0@, e.1@))
}

/// `root` followed by the segments named by `names`.
pub open spec fn under(root: PathModel, names: Seq<&str>) -> PathModel {
    PathModel { leading_colon: root.leading_colon, segments: root.segments + plain_segments(names) }
}

/// A substitute without a template: the caller's generic arguments pass through.
pub open spec fn plain(target: PathModel) -> SubstituteModel {
    SubstituteModel { target, template: None }
}

/// The substitutes a fresh table holds, with `root` the path of the generated code's
/// support crate.
pub open spec fn default_substitutes(root: PathModel) -> Map<Seq<char>, SubstituteModel> {
    Map::empty().insert("bitvec::order::Lsb0"@, plain(under(root, seq!["utils", "bits", "Lsb0"]))).insert(
        "bitvec::order::Msb0"@,
        plain(under(root, seq!["utils", "bits", "Msb0"])),
    ).insert(
        "sp_core::crypto::AccountId32"@,
        plain(under(root, seq!["ext", "sp_core", "crypto", "AccountId32"])),
    ).insert("primitive_types::H160"@, plain(under(root, seq!["ext", "sp_core", "H160"]))).insert(
        "primitive_types::H256"@,
        plain(under(root, seq!["ext", "sp_core", "H256"])),
    ).insert("primitive_types::H512"@, plain(under(root, seq!["ext", "sp_core", "H512"]))).insert(
        "sp_runtime::multiaddress::MultiAddress"@,
        plain(under(root, seq!["ext", "sp_runtime", "MultiAddress"])),
    ).insert(
        "frame_support::traits::misc::WrapperKeepOpaque"@,
        plain(under(root, seq!["utils", "WrapperKeepOpaque"])),
    ).insert("BTreeMap"@, plain(under(root, seq!["utils", "KeyedVec"]))).insert(
        "BTreeSet"@,
        plain(PathModel { leading_colon: true, segments: plain_segments(seq!["std", "vec", "Vec"]) }),
    )
}

#[derive(Debug)]
struct Entry {
    key: Vec<char>,
    target: TypePath,
    template: Option<Vec<ParameterSlot>>,
}

spec fn entry_model(e: Entry) -> SubstituteModel {
    SubstituteModel {
        target: e.target@,
        template: match e.template {
            Some(v) => Some(slots_model(v@)),
            None => None,
        },
    }
}

/// A table of type substitutes, keyed by the whitespace-free text of a source path.
#[derive(Debug)]
pub struct TypeSubstitutes {
    entries: Vec<Entry>,
}

impl View for TypeSubstitutes {
    type V = Map<Seq<char>, SubstituteModel>;

    closed spec fn view(&self) -> Map<Seq<char>, SubstituteModel> {
        Map::new(
            |k: Seq<char>| exists|i: int| 0 <= i < self.entries@.len() && #[trigger] self.entries@[i].key@ == k,
            |k: Seq<char>|
                entry_model(
                    self.entries@[choose|i: int|
                        0 <= i < self.entries@.len() && #[trigger] self.entries@[i].key@ == k],
                ),
        )
    }
}

impl TypeSubstitutes {
    /// Keys are unique, every target is absolute and so is every concrete slot.
    pub closed spec fn wf(&self) -> bool {
        &&& forall|i: int, j: int|
            0 <= i < self.entries@.len() && 0 <= j < self.entries@.len() && i != j
                ==> #[trigger] self.entries@[i].key@ != #[trigger] self.entries@[j].key@
        &&& forall|i: int| 0 <= i < self.entries@.len() ==> spec_is_absolute(#[trigger] self.entries@[i].target@)
        &&& forall|i: int| 0 <= i < self.entries@.len() ==> template_wf(entry_model(#[trigger] self.entries@[i]).template)
    }

    proof fn lemma_entry_view(&self, i: int)
        requires
            self.wf(),
            0 <= i < self.entries@.len(),
        ensures
            self@.contains_key(self.entries@[i].key@),
            self@[self.entries@[i].key@] == entry_model(self.entries@[i]),
    {
        let k = self.entries@[i].key@;
        assert(self.entries@[i].key@ == k);
        let j = choose|j: int| 0 <= j < self.entries@.len() && #[trigger] self.entries@[j].key@ == k;
        assert(j == i);
    }

    fn find(&self, key: &Vec<char>) -> (r: Option<usize>)
        requires
            self.wf(),
        ensures
            r is None ==> !self@.contains_key(key@),
            r is Some ==> r->Some_0 < self.entries@.len() && self.entries@[r->Some_0 as int].key@ == key@,
    {
        let n = self.entries.len();
        let mut i: usize = 0;
        while i < n
            invariant
                n == self.entries@.len(),
                i <= n,
                forall|j: int| 0 <= j < i ==> self.entries@[j].key@ != key@,
            decreases n - i,
        {
            if chars_eq(&self.entries[i].key, key) {
                return Some(i);
            }
            i = i + 1;
        }
        None
    }

    fn put(&mut self, key: Vec<char>, target: TypePath, template: Option<Vec<ParameterSlot>>)
        requires
            old(self).wf(),
            spec_is_absolute(target@),
            template_wf(
                match template {
                    Some(v) => Some(slots_model(v@)),
                    None => None,
                },
            ),
        ensures
            final(self).wf(),
            final(self)@ == old(self)@.insert(
                key@,
                SubstituteModel {
                    target: target@,
                    template: match template {
                        Some(v) => Some(slots_model(v@)),
                        None => None,
                    },
                },
            ),
    {
        let ghost k = key@;
        let e = Entry { key, target, template };
        let ghost em = entry_model(e);
        let ghost pre = *self;
        match self.find(&e.key) {
            Some(i) => {
                self.entries.set(i, e);
                proof {
                    assert forall|k2: Seq<char>|
                        #![auto]
                        self@.contains_key(k2) == pre@.insert(k, em).contains_key(k2) by {
                        if pre@.contains_key(k2) {
                            let j = choose|j: int| 0 <= j < pre.entries@.len() && #[trigger] pre.entries@[j].key@ == k2;
                            assert(self.entries@[j].key@ == k2 || j == i);
                        }
                        if self@.contains_key(k2) {
                            let j = choose|j: int| 0 <= j < self.entries@.len() && #[trigger] self.entries@[j].key@ == k2;
                            assert(pre.entries@[j].key@ == k2 || j == i);
                        }
                    }
                    assert forall|k2: Seq<char>| #[trigger] self@.contains_key(k2) implies self@[k2] == pre@.insert(k, em)[k2] by {
                        let j = choose|j: int| 0 <= j < self.entries@.len() && #[trigger] self.entries@[j].key@ == k2;
                        self.lemma_entry_view(j);
                        if j != i {
                            pre.lemma_entry_view(j);
                        }
                    }
                    assert(self@ =~= pre@.insert(k, em));
                }
            },
            None => {
                self.entries.push(e);
                proof {
                    let n = pre.entries@.len();
                    assert(self.entries@[n as int].key@ == k);
                    assert forall|k2: Seq<char>|
                        #![auto]
                        self@.contains_key(k2) == pre@.insert(k, em).contains_key(k2) by {
                        if pre@.contains_key(k2) {
                            let j = choose|j: int| 0 <= j < pre.entries@.len() && #[trigger] pre.entries@[j].key@ == k2;
                            assert(self.entries@[j].key@ == k2);
                        }
                        if self@.contains_key(k2) {
                            let j = choose|j: int| 0 <= j < self.entries@.len() && #[trigger] self.entries@[j].key@ == k2;
                            assert(pre.entries@[j].key@ == k2 || j == n);
                        }
                    }
                    assert forall|k2: Seq<char>| #[trigger] self@.contains_key(k2) implies self@[k2] == pre@.insert(k, em)[k2] by {
                        let j = choose|j: int| 0 <= j < self.entries@.len() && #[trigger] self.entries@[j].key@ == k2;
                        self.lemma_entry_view(j);
                        if j != n {
                            pre.lemma_entry_view(j);
                        }
                    }
                    assert(self@ =~= pre@.insert(k, em));
                }
            },
        }
    }

    /// A table holding the default substitutes, with `crate_path` the path of the
    /// generated code's support crate.
    pub fn new(crate_path: &AbsoluteTypePath) -> (r: TypeSubstitutes)
        ensures
            r.wf(),
            r@ == default_substitutes(crate_path@),
    {
        let mut t = TypeSubstitutes { entries: Vec::new() };
        assert(t@ =~= Map::<Seq<char>, SubstituteModel>::empty());
        t.put_default("bitvec::order::Lsb0", crate_path.join(&vec!["utils", "bits", "Lsb0"]));
        t.put_default("bitvec::order::Msb0", crate_path.join(&vec!["utils", "bits", "Msb0"]));
        t.put_default(
            "sp_core::crypto::AccountId32",
            crate_path.join(&vec!["ext", "sp_core", "crypto", "AccountId32"]),
        );
        t.put_default("primitive_types::H160", crate_path.join(&vec!["ext", "sp_core", "H160"]));
        t.put_default("primitive_types::H256", crate_path.join(&vec!["ext", "sp_core", "H256"]));
        t.put_default("primitive_types::H512", crate_path.join(&vec!["ext", "sp_core", "H512"]));
        t.put_default(
            "sp_runtime::multiaddress::MultiAddress",
            crate_path.join(&vec!["ext", "sp_runtime", "MultiAddress"]),
        );
        t.put_default(
            "frame_support::traits::misc::WrapperKeepOpaque",
            crate_path.join(&vec!["utils", "WrapperKeepOpaque"]),
        );
        t.put_default("BTreeMap", crate_path.join(&vec!["utils", "KeyedVec"]));
        t.put_default("BTreeSet", AbsoluteTypePath::global(&vec!["std", "vec", "Vec"]));
        t
    }

    fn put_default(&mut self, key: &str, target: AbsoluteTypePath)
        requires
            old(self).wf(),
        ensures
            final(self).wf(),
            final(self)@ == old(self)@.insert(key@, plain(target@)),
    {
        let mut k: Vec<char> = Vec::new();
        push_chars(key, &mut k);
        assert(k@ =~= key@);
        let p = target.into_inner();
        self.put(k, p, None);
    }

    /// Adds the entries in order, as [`Self::extend_one`] does, up to the first one
    /// refused; that one leaves no trace and its error is returned.
    pub fn extend(&mut self, elems: Vec<(TypePath, AbsoluteTypePath)>) -> (r: Result<
        (),
        SubstituteError,
    >)
        requires
            old(self).wf(),
        ensures
            final(self).wf(),
            final(self)@ == ingest_all(old(self)@, pairs_model(elems@)).0,
            r is Ok <==> ingest_all(old(self)@, pairs_model(elems@)).1 is None,
            r is Err ==> ingest_all(old(self)@, pairs_model(elems@)).1 == Some(r->Err_0@),
    {
        let ghost all = pairs_model(elems@);
        let ghost start = self@;
        let n = elems.len();
        let mut rest = elems;
        let mut i: usize = 0;
        assert(all.take(0) =~= Seq::<(PathModel, PathModel)>::empty());
        while i < n
            invariant
                n == all.len(),
                all == pairs_model(elems@),
                i <= n,
                self.wf(),
                start == old(self)@,
                rest@.len() == n - i,
                pairs_model(rest@) =~= all.subrange(i as int, n as int),
                self@ == ingest_all(start, all.take(i as int)).0,
                ingest_all(start, all.take(i as int)).1 is None,
            decreases n - i,
        {
            let ghost before = rest@;
            let (source, target) = rest.remove(0);
            assert(all[i as int] == pairs_model(before)[0]);
            assert(rest@ =~= before.subrange(1, before.len() as int));
            assert forall|k: int| 0 <= k < rest@.len() implies pairs_model(rest@)[k] == all.subrange(
                i + 1,
                n as int,
            )[k] by {
                assert(pairs_model(before)[k + 1] == all.subrange(i as int, n as int)[k + 1]);
            }
            assert(pairs_model(rest@) =~= all.subrange(i + 1, n as int));
            assert((source@, target@) == all[i as int]);
            assert(all.take(i + 1).last() == all[i as int]);
            assert(all.take(i + 1).drop_last() =~= all.take(i as int));
            match self.extend_one(source, target) {
                Ok(()) => {},
                Err(e) => {
                    proof {
                        assert(ingest_all(start, all.take(i + 1)).1 == Some(e@));
                        lemma_ingest_all_err_prefix(start, all, i + 1);
                    }
                    return Err(e);
                },
            }
            i = i + 1;
        }
        assert(all.take(n as int) =~= all);
        Ok(())
    }

    /// Adds the substitute `source` -> `target`, replacing any earlier one for the same
    /// key; on an error the table is left as it was.
    pub fn extend_one(&mut self, source: TypePath, target: AbsoluteTypePath) -> (r: Result<
        (),
        SubstituteError,
    >)
        requires
            old(self).wf(),
        ensures
            final(self).wf(),
            match ingest(source@, target@) {
                Ok((k, e)) => r is Ok && final(self)@ == old(self)@.insert(k, e),
                Err(err) => r is Err && r->Err_0@ == err && final(self)@ == old(self)@,
            },
    {
        let ghost segs = segments_model(source.segments@);
        proof {
            lemma_segments_model(source.segments@);
        }
        let n = source.segments.len();
        if n > 0 {
            let mut i: usize = n - 1;
            while i > 0
                invariant
                    *self == *old(self),
                    self.wf(),
                    n == source.segments@.len(),
                    n > 0,
                    i < n,
                    segs == segments_model(source.segments@),
                    segs.len() == n,
                    last_generic(segs.drop_last()) == last_generic(segs.take(i as int)),
                decreases i,
            {
                proof {
                    lemma_segments_model(source.segments@);
                }
                assert(segs.take(i as int).drop_last() =~= segs.take(i - 1));
                i = i - 1;
                if has_generics(&source.segments[i].arguments) {
                    return Err(SubstituteError::GenericInNamespace { segment: source.segments[i].deep_clone() });
                }
            }
            assert(segs.take(0) =~= Seq::<SegmentModel>::empty());
            assert(namespace_generic(source@) is None);
        }
        if n == 0 {
            return Err(SubstituteError::EmptyPath);
        }
        let tpath = target.path();
        let m = tpath.segments.len();
        proof {
            lemma_segments_model(tpath.segments@);
        }
        if m == 0 {
            return Err(SubstituteError::EmptyPath);
        }
        let source_args = type_args(&source.segments[n - 1].arguments);
        let ghost sa = spec_type_args(source@.segments.last().arguments);
        assert(refs_model(source_args@) =~= sa);
        let key = key_of(&source);
        if source_args.len() == 0 {
            let t = target.into_inner();
            self.put(key, t, None);
            return Ok(());
        }
        let target_args = type_args(&tpath.segments[m - 1].arguments);
        let ghost ta = spec_type_args(target@.segments.last().arguments);
        assert(refs_model(target_args@) =~= ta);
        let mut slots: Vec<ParameterSlot> = Vec::new();
        let tn = target_args.len();
        let mut j: usize = 0;
        assert(ta.take(0) =~= Seq::<PathModel>::empty());
        assert(slots_model(slots@) =~= Seq::<SlotModel>::empty());
        while j < tn
            invariant
                *self == *old(self),
                self.wf(),
                namespace_generic(source@) is None,
                source@.segments.len() > 0,
                target@.segments.len() > 0,
                sa.len() > 0,
                sa == spec_type_args(source@.segments.last().arguments),
                ta == spec_type_args(target@.segments.last().arguments),
                tn == target_args@.len(),
                j <= tn,
                sa == refs_model(source_args@),
                ta == refs_model(target_args@),
                template_of(sa, ta.take(j as int)) == Ok::<Seq<SlotModel>, PathModel>(slots_model(slots@)),
                template_wf(Some(slots_model(slots@))),
            decreases tn - j,
        {
            let arg = target_args[j];
            assert(ta.take(j + 1).drop_last() =~= ta.take(j as int));
            assert(ta.take(j + 1).last() == arg@);
            let found = find_param(&source_args, arg);
            let slot;
            if let Some(k) = found {
                proof {
                    lemma_first_match_unique(sa, arg@, k as int);
                }
                slot = ParameterSlot::PassThrough { index: k, name: arg.deep_clone() };
            } else if is_absolute(arg) {
                slot = ParameterSlot::Concrete(arg.deep_clone());
            } else {
                proof {
                    assert(slot_for(sa, arg@) is None);
                    assert(template_of(sa, ta.take(j + 1)) == Err::<Seq<SlotModel>, PathModel>(arg@));
                    lemma_template_err_prefix(sa, ta, j + 1);
                }
                let e = SubstituteError::UnresolvedGeneric { arg: arg.deep_clone() };
                return Err(e);
            }
            let ghost prev = slots@;
            slots.push(slot);
            assert(slots_model(slots@) =~= slots_model(prev).push(slot@));
            j = j + 1;
        }
        assert(ta.take(tn as int) =~= ta);
        let t = target.into_inner();
        self.put(key, t, Some(slots));
        Ok(())
    }

    /// Every target a well-formed table holds is absolute, and so is every concrete
    /// slot of its templates.
    pub proof fn lemma_targets_absolute(&self)
        requires
            self.wf(),
        ensures
            forall|k: Seq<char>| #[trigger] self@.contains_key(k) ==> spec_is_absolute(self@[k].target)
                && template_wf(self@[k].template),
    {
        assert forall|k: Seq<char>| #[trigger] self@.contains_key(k) implies spec_is_absolute(self@[k].target)
            && template_wf(self@[k].template) by {
            let j = choose|j: int| 0 <= j < self.entries@.len() && #[trigger] self.entries@[j].key@ == k;
            self.lemma_entry_view(j);
        }
    }

    /// The substitute for `path`: its target and the generic arguments to emit, built
    /// from the stored template or, without one, the caller's `params` unchanged.
    pub fn for_path_with_params<'a>(&'a self, path: &TypePath, params: &'a [TypePath]) -> (r:
        Option<(&'a TypePath, Vec<&'a TypePath>)>)
        requires
            self.wf(),
        ensures
            r is None <==> spec_lookup(self@, path_key(path@), paths_model(params@)) is None,
            r is Some ==> spec_lookup(self@, path_key(path@), paths_model(params@)) == Some(
                (r->Some_0.0@, refs_model(r->Some_0.1@)),
            ),
    {
        let key = key_of(path);
        match self.find(&key) {
            None => None,
            Some(i) => {
                proof {
                    self.lemma_entry_view(i as int);
                }
                let e = &self.entries[i];
                let ghost caller = paths_model(params@);
                let mut out: Vec<&'a TypePath> = Vec::new();
                match &e.template {
                    None => {
                        let n = params.len();
                        let mut j: usize = 0;
                        while j < n
                            invariant
                                n == params@.len(),
                                j <= n,
                                refs_model(out@) == paths_model(params@.take(j as int)),
                            decreases n - j,
                        {
                            let ghost prev = out@;
                            out.push(&params[j]);
                            assert(refs_model(out@) =~= refs_model(prev).push(params@[j as int]@));
                            assert(paths_model(params@.take(j + 1)) =~= paths_model(params@.take(j as int)).push(params@[j as int]@));
                            j = j + 1;
                        }
                        assert(params@.take(n as int) =~= params@);
                    },
                    Some(t) => {
                        let n = t.len();
                        let mut j: usize = 0;
                        while j < n
                            invariant
                                n == t@.len(),
                                j <= n,
                                caller == paths_model(params@),
                                refs_model(out@) == slots_model(t@.take(j as int)).map_values(
                                    |s: SlotModel| resolve_slot(s, caller),
                                ),
                            decreases n - j,
                        {
                            let ghost prev = out@;
                            match &t[j] {
                                ParameterSlot::PassThrough { index, name } => {
                                    if *index < params.len() {
                                        out.push(&params[*index]);
                                    } else {
                                        out.push(name);
                                    }
                                },
                                ParameterSlot::Concrete(p) => {
                                    out.push(p);
                                },
                            }
                            assert(refs_model(out@) =~= refs_model(prev).push(resolve_slot(t@[j as int]@, caller)));
                            assert(slots_model(t@.take(j + 1)).map_values(|s: SlotModel| resolve_slot(s, caller))
                                =~= slots_model(t@.take(j as int)).map_values(|s: SlotModel| resolve_slot(s, caller)).push(resolve_slot(t@[j as int]@, caller)));
                            j = j + 1;
                        }
                        assert(t@.take(n as int) =~= t@);
                    },
                }
                Some((&e.target, out))
            },
        }
    }
}

fn has_generics(a: &PathArguments) -> (r: bool)
    ensures
        r == spec_has_generics(a@),
{
    match a {
        PathArguments::Bare => false,
        PathArguments::AngleBracketed(x) => {
            proof {
                crate::path::lemma_generic_args_model(x@);
            }
            x.len() > 0
        },
        PathArguments::Parenthesized(_) => true,
    }
}

/// The first position of `x` among `s`.
fn find_param(s: &Vec<&TypePath>, x: &TypePath) -> (r: Option<usize>)
    ensures
        r is None ==> !refs_model(s@).contains(x@),
        r is Some ==> is_first_match(refs_model(s@), x@, r->Some_0 as int),
{
    let n = s.len();
    let mut i: usize = 0;
    while i < n
        invariant
            n == s@.len(),
            i <= n,
            forall|k: int| 0 <= k < i ==> refs_model(s@)[k] != x@,
        decreases n - i,
    {
        if path_eq(s[i], x) {
            return Some(i);
        }
        i = i + 1;
    }
    None
}

pub(crate) proof fn lemma_template_err_prefix(sa: Seq<PathModel>, ta: Seq<PathModel>, j: int)
    requires
        0 <= j <= ta.len(),
        template_of(sa, ta.take(j)) is Err,
    ensures
        template_of(sa, ta) == template_of(sa, ta.take(j)),
    decreases ta.len() - j,
{
    if j == ta.len() {
        assert(ta.take(j) =~= ta);
    } else {
        assert(ta.take(j + 1).drop_last() =~= ta.take(j));
        lemma_template_err_prefix(sa, ta, j + 1);
    }
}

proof fn lemma_ingest_all_err_prefix(
    m: Map<Seq<char>, SubstituteModel>,
    s: Seq<(PathModel, PathModel)>,
    j: int,
)
    requires
        0 <= j <= s.len(),
        ingest_all(m, s.take(j)).1 is Some,
    ensures
        ingest_all(m, s) == ingest_all(m, s.take(j)),
    decreases s.len() - j,
{
    if j == s.len() {
        assert(s.take(j) =~= s);
    } else {
        assert(s.take(j + 1).drop_last() =~= s.take(j));
        lemma_ingest_all_err_prefix(m, s, j + 1);
    }
}

proof fn lemma_first_match_unique(s: Seq<PathModel>, x: PathModel, j: int)
    requires
        is_first_match(s, x, j),
    ensures
        s.contains(x),
        (choose|k: int| is_first_match(s, x, k)) == j,
{
    assert(s[j] == x);
    let k = choose|k: int| is_first_match(s, x, k);
    assert(is_first_match(s, x, k));
    if k < j {
        assert(s[k] != x);
    }
    if j < k {
        assert(s[j] != x);
    }
}

fn chars_eq(a: &Vec<char>, b: &Vec<char>) -> (r: bool)
    ensures
        r == (a@ == b@),
{
    if a.len() != b.len() {
        return false;
    }
    let n = a.len();
    let mut i: usize = 0;
    while i < n
        invariant
            n == a@.len(),
            n == b@.len(),
            i <= n,
            forall|j: int| 0 <= j < i ==> a@[j] == b@[j],
        decreases n - i,
    {
        if a[i] != b[i] {
            return false;
        }
        i = i + 1;
    }
    assert(a@ =~= b@);
    true
}

} // verus!
