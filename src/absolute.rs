//! Absolute type paths, the only kind a substitute may target, and the errors of
//! the substitute table.

use vstd::prelude::*;
use vstd::string::StringExecFns;
use crate::path::{PathArguments, PathModel, PathSegment, SegmentModel, TypePath, spec_is_absolute, is_absolute, lemma_segments_model, segments_model};

verus! {

/// Why a path was refused.
#[derive(Debug, PartialEq, Eq)]
pub enum SubstituteError {
    /// A substitute target is neither `::`-prefixed nor rooted at `crate`.
    NotAbsolute { path: TypePath, message: String },
    /// A segment before the last one of a source pattern has generic arguments.
    GenericInNamespace { segment: PathSegment },
    /// A source pattern or a target has no segment.
    EmptyPath,
    /// A generic argument of the target is neither a parameter of the source nor absolute.
    UnresolvedGeneric { arg: TypePath },
}

/// The mathematical form of a [`SubstituteError`], leaving out its message.
pub enum ErrorModel {
    NotAbsolute(PathModel),
    GenericInNamespace(SegmentModel),
    EmptyPath,
    UnresolvedGeneric(PathModel),
}

impl View for SubstituteError {
    type V = ErrorModel;

    open spec fn view(&self) -> ErrorModel {
        match self {
            SubstituteError::NotAbsolute { path, .. } => ErrorModel::NotAbsolute(path@),
            SubstituteError::GenericInNamespace { segment } => ErrorModel::GenericInNamespace(segment@),
            SubstituteError::EmptyPath => ErrorModel::EmptyPath,
            SubstituteError::UnresolvedGeneric { arg } => ErrorModel::UnresolvedGeneric(arg@),
        }
    }
}

/// The text that comes with a refused substitute target.
pub open spec fn not_absolute_message() -> Seq<char> {
    "The substitute path must be a global absolute path; try prefixing with `::` or `crate`"@
}

/// The text that goes with each kind of error.
pub open spec fn error_message(e: ErrorModel) -> Seq<char> {
    match e {
        ErrorModel::NotAbsolute(_) => not_absolute_message(),
        ErrorModel::GenericInNamespace(_) => "Namespace segment can't be generic"@,
        ErrorModel::EmptyPath => "Empty path"@,
        ErrorModel::UnresolvedGeneric(_) => "Generic parameter couldn't be found or not absolute"@,
    }
}

impl SubstituteError {
    /// The diagnostic text for this error.
    pub fn message(&self) -> (r: String)
        ensures
            r@ == error_message(self@),
    {
        match self {
            SubstituteError::NotAbsolute { .. } => String::from_str(
                "The substitute path must be a global absolute path; try prefixing with `::` or `crate`",
            ),
            SubstituteError::GenericInNamespace { .. } => String::from_str(
                "Namespace segment can't be generic",
            ),
            SubstituteError::EmptyPath => String::from_str("Empty path"),
            SubstituteError::UnresolvedGeneric { .. } => String::from_str(
                "Generic parameter couldn't be found or not absolute",
            ),
        }
    }
}

/// A path known to be absolute: it starts with `::` or with the segment `crate`.
#[derive(Debug)]
pub struct AbsoluteTypePath {
    path: TypePath,
}

impl View for AbsoluteTypePath {
    type V = PathModel;

    closed spec fn view(&self) -> PathModel {
        self.path@
    }
}

/// The segments named by `names`, each without generic arguments.
pub open spec fn plain_segments(names: Seq<&str>) -> Seq<SegmentModel> {
    names.map_values(|n: &str| SegmentModel { ident: n@, arguments: crate::path::ArgumentsModel::Bare })
}

fn named_segments(names: &Vec<&str>) -> (r: Vec<PathSegment>)
    ensures
        segments_model(r@) == plain_segments(names@),
{
    let mut out: Vec<PathSegment> = Vec::new();
    let n = names.len();
    let mut i: usize = 0;
    while i < n
        invariant
            n == names@.len(),
            i <= n,
            segments_model(out@) == plain_segments(names@.take(i as int)),
        decreases n - i,
    {
        let g = PathSegment { ident: String::from_str(names[i]), arguments: PathArguments::Bare };
        let ghost prev = out@;
        out.push(g);
        assert(out@.drop_last() =~= prev);
        assert(plain_segments(names@.take(i + 1)) =~= plain_segments(names@.take(i as int)).push(
            g@,
        ));
        i = i + 1;
    }
    assert(names@.take(n as int) =~= names@);
    out
}

impl AbsoluteTypePath {
    #[verifier::type_invariant]
    spec fn inv(&self) -> bool {
        spec_is_absolute(self.path@)
    }

    /// Accepts `value` if it is absolute, and otherwise hands it back inside the error.
    pub fn try_from(value: TypePath) -> (r: Result<AbsoluteTypePath, SubstituteError>)
        ensures
            spec_is_absolute(value@) <==> r is Ok,
            r is Ok ==> r->Ok_0@ == value@,
            r is Err ==> r->Err_0@ == ErrorModel::NotAbsolute(value@),
            r matches Err(SubstituteError::NotAbsolute { message, .. }) ==> message@ == not_absolute_message(),
    {
        if is_absolute(&value) {
            Ok(AbsoluteTypePath { path: value })
        } else {
            let message = String::from_str(
                "The substitute path must be a global absolute path; try prefixing with `::` or `crate`",
            );
            Err(SubstituteError::NotAbsolute { path: value, message })
        }
    }

    /// The absolute path `::n0::n1::...` over the given names.
    pub fn global(names: &Vec<&str>) -> (r: AbsoluteTypePath)
        ensures
            r@ == (PathModel { leading_colon: true, segments: plain_segments(names@) }),
    {
        let path = TypePath { leading_colon: true, segments: named_segments(names) };
        AbsoluteTypePath { path }
    }

    /// This path followed by the segments named by `names`.
    pub fn join(&self, names: &Vec<&str>) -> (r: AbsoluteTypePath)
        ensures
            r@ == (PathModel {
                leading_colon: self@.leading_colon,
                segments: self@.segments + plain_segments(names@),
            }),
    {
        proof {
            use_type_invariant(self);
        }
        let mut p = self.path.deep_clone();
        let ghost head = p.segments@;
        let mut tail = named_segments(names);
        let ghost tail_segs = tail@;
        p.segments.append(&mut tail);
        proof {
            lemma_segments_model(tail_segs);
            lemma_segments_model(p.segments@);
            lemma_segments_model(head);
            lemma_segments_model(self.path.segments@);
            assert(segments_model(p.segments@) =~= segments_model(head) + plain_segments(names@));
        }
        AbsoluteTypePath { path: p }
    }

    /// The path itself.
    pub fn path(&self) -> (r: &TypePath)
        ensures
            r@ == self@,
            spec_is_absolute(self@),
    {
        proof {
            use_type_invariant(self);
        }
        &self.path
    }

    /// The path itself, by value.
    pub fn into_inner(self) -> (r: TypePath)
        ensures
            r@ == self@,
            spec_is_absolute(r@),
    {
        proof {
            use_type_invariant(&self);
        }
        self.path
    }
}

} // verus!
