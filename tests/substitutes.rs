use type_substitutes::absolute::{AbsoluteTypePath, SubstituteError};
use type_substitutes::path::{
    is_absolute, key_of, GenericArgument, PathArguments, PathSegment, TypePath,
};
use type_substitutes::substitutes::TypeSubstitutes;

fn seg(name: &str) -> PathSegment {
    PathSegment { ident: name.to_string(), arguments: PathArguments::Bare }
}

fn gseg(name: &str, args: Vec<TypePath>) -> PathSegment {
    PathSegment {
        ident: name.to_string(),
        arguments: PathArguments::AngleBracketed(
            args.into_iter().map(GenericArgument::Type).collect(),
        ),
    }
}

fn rel(names: &[&str]) -> TypePath {
    TypePath { leading_colon: false, segments: names.iter().map(|n| seg(n)).collect() }
}

fn glob(names: &[&str]) -> TypePath {
    TypePath { leading_colon: true, segments: names.iter().map(|n| seg(n)).collect() }
}

fn with_last(mut p: TypePath, last: PathSegment) -> TypePath {
    p.segments.push(last);
    p
}

fn absolute(p: TypePath) -> AbsoluteTypePath {
    AbsoluteTypePath::try_from(p).unwrap()
}

fn my_root() -> TypeSubstitutes {
    TypeSubstitutes::new(&absolute(glob(&["my_root"])))
}

fn key_text(p: &TypePath) -> String {
    key_of(p).into_iter().collect()
}

#[test]
fn default_btreeset_becomes_vec() {
    let t = my_root();
    let params = vec![rel(&["u32"])];
    let (target, eff) = t.for_path_with_params(&rel(&["BTreeSet"]), &params).unwrap();
    assert_eq!(*target, glob(&["std", "vec", "Vec"]));
    assert_eq!(eff, vec![&rel(&["u32"])]);
}

#[test]
fn default_btreemap_becomes_keyed_vec() {
    let t = my_root();
    let params = vec![rel(&["Key"]), rel(&["Val"])];
    let (target, eff) = t.for_path_with_params(&rel(&["BTreeMap"]), &params).unwrap();
    assert_eq!(*target, glob(&["my_root", "utils", "KeyedVec"]));
    assert_eq!(eff, vec![&rel(&["Key"]), &rel(&["Val"])]);
}

#[test]
fn every_default_is_present_and_absolute() {
    let t = my_root();
    let cases: Vec<(&[&str], TypePath)> = vec![
        (&["bitvec", "order", "Lsb0"], glob(&["my_root", "utils", "bits", "Lsb0"])),
        (&["bitvec", "order", "Msb0"], glob(&["my_root", "utils", "bits", "Msb0"])),
        (
            &["sp_core", "crypto", "AccountId32"],
            glob(&["my_root", "ext", "sp_core", "crypto", "AccountId32"]),
        ),
        (&["primitive_types", "H160"], glob(&["my_root", "ext", "sp_core", "H160"])),
        (&["primitive_types", "H256"], glob(&["my_root", "ext", "sp_core", "H256"])),
        (&["primitive_types", "H512"], glob(&["my_root", "ext", "sp_core", "H512"])),
        (
            &["sp_runtime", "multiaddress", "MultiAddress"],
            glob(&["my_root", "ext", "sp_runtime", "MultiAddress"]),
        ),
        (
            &["frame_support", "traits", "misc", "WrapperKeepOpaque"],
            glob(&["my_root", "utils", "WrapperKeepOpaque"]),
        ),
        (&["BTreeMap"], glob(&["my_root", "utils", "KeyedVec"])),
        (&["BTreeSet"], glob(&["std", "vec", "Vec"])),
    ];
    let params: Vec<TypePath> = vec![];
    for (source, expected) in cases {
        let (target, eff) = t.for_path_with_params(&rel(source), &params).unwrap();
        assert_eq!(*target, expected);
        assert!(is_absolute(target));
        assert!(eff.is_empty());
    }
}

#[test]
fn defaults_under_a_crate_rooted_path() {
    let t = TypeSubstitutes::new(&absolute(rel(&["crate"])));
    let params: Vec<TypePath> = vec![];
    let (target, _) = t.for_path_with_params(&rel(&["BTreeMap"]), &params).unwrap();
    assert_eq!(*target, rel(&["crate", "utils", "KeyedVec"]));
    assert!(is_absolute(target));
}

#[test]
fn swapped_generics_swap_the_caller_arguments() {
    let mut t = my_root();
    let source = with_last(rel(&[]), gseg("Foo", vec![rel(&["A"]), rel(&["B"])]));
    let target = with_last(glob(&["x"]), gseg("Bar", vec![rel(&["B"]), rel(&["A"])]));
    t.extend(vec![(source, absolute(target))]).unwrap();
    let lookup = with_last(rel(&[]), gseg("Foo", vec![rel(&["A"]), rel(&["B"])]));
    let params = vec![rel(&["I32"]), rel(&["Str"])];
    let (found, eff) = t.for_path_with_params(&lookup, &params).unwrap();
    let expected = with_last(glob(&["x"]), gseg("Bar", vec![rel(&["B"]), rel(&["A"])]));
    assert_eq!(*found, expected);
    assert_eq!(eff, vec![&rel(&["Str"]), &rel(&["I32"])]);
}

#[test]
fn concrete_argument_replaces_the_caller_argument() {
    let mut t = my_root();
    let source = with_last(rel(&[]), gseg("Foo", vec![rel(&["A"])]));
    let target = with_last(glob(&["x"]), gseg("Bar", vec![glob(&["core", "u8"])]));
    t.extend(vec![(source, absolute(target))]).unwrap();
    let lookup = with_last(rel(&[]), gseg("Foo", vec![rel(&["A"])]));
    let params = vec![rel(&["Anything"])];
    let (_, eff) = t.for_path_with_params(&lookup, &params).unwrap();
    assert_eq!(eff, vec![&glob(&["core", "u8"])]);
}

#[test]
fn omitted_generic_shortens_the_arguments() {
    let mut t = my_root();
    let source = with_last(rel(&[]), gseg("Foo", vec![rel(&["A"]), rel(&["B"])]));
    let target = with_last(glob(&["x"]), gseg("Bar", vec![rel(&["A"])]));
    t.extend(vec![(source, absolute(target))]).unwrap();
    let lookup = with_last(rel(&[]), gseg("Foo", vec![rel(&["A"]), rel(&["B"])]));
    let params = vec![rel(&["P"]), rel(&["Q"])];
    let (_, eff) = t.for_path_with_params(&lookup, &params).unwrap();
    assert_eq!(eff, vec![&rel(&["P"])]);
}

#[test]
fn generic_namespace_segment_is_refused() {
    let mut t = my_root();
    let source = TypePath {
        leading_colon: false,
        segments: vec![seg("a"), gseg("b", vec![rel(&["T"])]), seg("c")],
    };
    let err = t.extend(vec![(source, absolute(glob(&["x", "Y"])))]).unwrap_err();
    assert_eq!(err, SubstituteError::GenericInNamespace { segment: gseg("b", vec![rel(&["T"])]) });
    let params: Vec<TypePath> = vec![];
    let lookup = TypePath {
        leading_colon: false,
        segments: vec![seg("a"), gseg("b", vec![rel(&["T"])]), seg("c")],
    };
    assert!(t.for_path_with_params(&lookup, &params).is_none());
}

#[test]
fn parenthesized_namespace_segment_is_refused() {
    let mut t = my_root();
    let paren = PathSegment {
        ident: "F".to_string(),
        arguments: PathArguments::Parenthesized("(A) -> B".to_string()),
    };
    let source = TypePath { leading_colon: false, segments: vec![paren, seg("c")] };
    let err = t.extend_one(source, absolute(glob(&["x"]))).unwrap_err();
    assert!(matches!(err, SubstituteError::GenericInNamespace { .. }));
}

#[test]
fn empty_angle_brackets_in_namespace_are_accepted() {
    let mut t = my_root();
    let empty = PathSegment {
        ident: "a".to_string(),
        arguments: PathArguments::AngleBracketed(vec![]),
    };
    let source = TypePath { leading_colon: false, segments: vec![empty, seg("c")] };
    assert!(t.extend_one(source, absolute(glob(&["x"]))).is_ok());
}

#[test]
fn relative_target_is_not_absolute() {
    let err = AbsoluteTypePath::try_from(rel(&["some", "relative", "Path"])).unwrap_err();
    match err {
        SubstituteError::NotAbsolute { path, message } => {
            assert_eq!(path, rel(&["some", "relative", "Path"]));
            assert_eq!(
                message,
                "The substitute path must be a global absolute path; try prefixing with `::` or `crate`"
            );
        }
        other => panic!("unexpected error {:?}", other),
    }
}

#[test]
fn crate_and_global_targets_are_absolute() {
    assert!(AbsoluteTypePath::try_from(rel(&["crate", "x"])).is_ok());
    assert!(AbsoluteTypePath::try_from(glob(&["x"])).is_ok());
    assert!(AbsoluteTypePath::try_from(rel(&["krate", "x"])).is_err());
    assert!(AbsoluteTypePath::try_from(rel(&[])).is_err());
}

#[test]
fn unresolved_generic_is_refused_and_leaves_no_trace() {
    let mut t = my_root();
    let source = with_last(rel(&[]), gseg("Foo", vec![rel(&["A"])]));
    let target = with_last(glob(&["x"]), gseg("Bar", vec![rel(&["C"])]));
    let err = t.extend_one(source, absolute(target)).unwrap_err();
    assert_eq!(err, SubstituteError::UnresolvedGeneric { arg: rel(&["C"]) });
    let lookup = with_last(rel(&[]), gseg("Foo", vec![rel(&["A"])]));
    let params = vec![rel(&["X"])];
    assert!(t.for_path_with_params(&lookup, &params).is_none());
}

#[test]
fn nested_generic_target_is_refused() {
    let mut t = my_root();
    let source = with_last(rel(&[]), gseg("Foo", vec![rel(&["A"])]));
    let nested = with_last(rel(&[]), gseg("Vec", vec![rel(&["A"])]));
    let target = with_last(glob(&["x"]), gseg("Bar", vec![nested]));
    let err = t.extend_one(source, absolute(target)).unwrap_err();
    assert!(matches!(err, SubstituteError::UnresolvedGeneric { .. }));
}

#[test]
fn empty_source_is_refused() {
    let mut t = my_root();
    let err = t.extend_one(rel(&[]), absolute(glob(&["x"]))).unwrap_err();
    assert_eq!(err, SubstituteError::EmptyPath);
}

#[test]
fn empty_global_target_is_refused() {
    let mut t = my_root();
    let err = t.extend_one(rel(&["Foo"]), absolute(glob(&[]))).unwrap_err();
    assert_eq!(err, SubstituteError::EmptyPath);
}

#[test]
fn unknown_path_is_absent() {
    let t = my_root();
    let params = vec![rel(&["u8"])];
    assert!(t.for_path_with_params(&rel(&["HashMap"]), &params).is_none());
    assert!(t.for_path_with_params(&rel(&["order", "Lsb0"]), &params).is_none());
    assert!(t.for_path_with_params(&rel(&["BTreeSet"]), &params).is_some());
}

#[test]
fn whitespace_in_names_is_ignored() {
    let t = my_root();
    let params: Vec<TypePath> = vec![];
    let spaced = rel(&[" BTree Set "]);
    let (target, _) = t.for_path_with_params(&spaced, &params).unwrap();
    assert_eq!(*target, glob(&["std", "vec", "Vec"]));
    let spaced_ns = rel(&["bitvec ", "\torder", "Lsb0\n"]);
    assert!(t.for_path_with_params(&spaced_ns, &params).is_some());
}

#[test]
fn key_is_the_whitespace_free_text() {
    let p = with_last(glob(&["x"]), gseg("Bar", vec![rel(&["B"]), rel(&["A"])]));
    assert_eq!(key_text(&p), "::x::Bar<B,A>");
    let other = TypePath {
        leading_colon: false,
        segments: vec![PathSegment {
            ident: "Foo".to_string(),
            arguments: PathArguments::AngleBracketed(vec![
                GenericArgument::Other("' a".to_string()),
                GenericArgument::Type(rel(&["T"])),
            ]),
        }],
    };
    assert_eq!(key_text(&other), "Foo<'a,T>");
    let paren = TypePath {
        leading_colon: false,
        segments: vec![PathSegment {
            ident: "Fn".to_string(),
            arguments: PathArguments::Parenthesized("(A, B) -> C".to_string()),
        }],
    };
    assert_eq!(key_text(&paren), "Fn(A,B)->C");
}

#[test]
fn overwrite_replaces_target_and_template() {
    let mut t = my_root();
    let source = || with_last(rel(&[]), gseg("Foo", vec![rel(&["A"]), rel(&["B"])]));
    let first = with_last(glob(&["x"]), gseg("Bar", vec![rel(&["B"]), rel(&["A"])]));
    t.extend_one(source(), absolute(first)).unwrap();
    t.extend_one(source(), absolute(glob(&["y", "Baz"]))).unwrap();
    let params = vec![rel(&["P"]), rel(&["Q"])];
    let (target, eff) = t.for_path_with_params(&source(), &params).unwrap();
    assert_eq!(*target, glob(&["y", "Baz"]));
    assert!(eff.is_empty());
}

#[test]
fn overwrite_of_a_default_clears_to_pass_through() {
    let mut t = my_root();
    t.extend_one(rel(&["BTreeSet"]), absolute(glob(&["z", "Set"]))).unwrap();
    let params = vec![rel(&["u32"])];
    let (target, eff) = t.for_path_with_params(&rel(&["BTreeSet"]), &params).unwrap();
    assert_eq!(*target, glob(&["z", "Set"]));
    assert_eq!(eff, vec![&rel(&["u32"])]);
}

#[test]
fn extend_stops_at_the_first_refused_entry() {
    let mut t = my_root();
    let bad_target = with_last(glob(&["x"]), gseg("Bar", vec![rel(&["C"])]));
    let err = t
        .extend(vec![
            (rel(&["One"]), absolute(glob(&["x", "One"]))),
            (with_last(rel(&[]), gseg("Two", vec![rel(&["A"])])), absolute(bad_target)),
            (rel(&["Three"]), absolute(glob(&["x", "Three"]))),
        ])
        .unwrap_err();
    assert_eq!(err, SubstituteError::UnresolvedGeneric { arg: rel(&["C"]) });
    let params: Vec<TypePath> = vec![];
    assert!(t.for_path_with_params(&rel(&["One"]), &params).is_some());
    assert!(t.for_path_with_params(&rel(&["Three"]), &params).is_none());
}

#[test]
fn pass_through_beyond_the_caller_arguments_keeps_the_parameter() {
    let mut t = my_root();
    let source = with_last(rel(&[]), gseg("Foo", vec![rel(&["A"]), rel(&["B"])]));
    let target = with_last(glob(&["x"]), gseg("Bar", vec![rel(&["B"])]));
    t.extend_one(source, absolute(target)).unwrap();
    let lookup = with_last(rel(&[]), gseg("Foo", vec![rel(&["A"]), rel(&["B"])]));
    let params = vec![rel(&["P"])];
    let (_, eff) = t.for_path_with_params(&lookup, &params).unwrap();
    assert_eq!(eff, vec![&rel(&["B"])]);
}

#[test]
fn deep_clone_is_equal() {
    let p = with_last(glob(&["x"]), gseg("Bar", vec![rel(&["B"]), glob(&["core", "u8"])]));
    assert_eq!(p.deep_clone(), p);
}

#[test]
fn each_error_has_its_message() {
    let not_abs = AbsoluteTypePath::try_from(rel(&["a"])).unwrap_err();
    assert_eq!(
        not_abs.message(),
        "The substitute path must be a global absolute path; try prefixing with `::` or `crate`"
    );
    let ns = SubstituteError::GenericInNamespace { segment: seg("b") };
    assert_eq!(ns.message(), "Namespace segment can't be generic");
    assert_eq!(SubstituteError::EmptyPath.message(), "Empty path");
    let unresolved = SubstituteError::UnresolvedGeneric { arg: rel(&["C"]) };
    assert_eq!(unresolved.message(), "Generic parameter couldn't be found or not absolute");
}
