//! Type paths as the substitute table reads them, their mathematical model, their
//! structural equality and the whitespace-free text by which they are keyed.

use vstd::prelude::*;
use vstd::string::StringExecFns;

verus! {

/// A type path: an optional leading `::` followed by `::`-separated segments.
#[derive(Debug, PartialEq, Eq)]
pub struct TypePath {
    pub leading_colon: bool,
    pub segments: Vec<PathSegment>,
}

/// One segment of a path: an identifier and what follows it.
#[derive(Debug, PartialEq, Eq)]
pub struct PathSegment {
    pub ident: String,
    pub arguments: PathArguments,
}

/// What follows the identifier of a segment.
#[derive(Debug, PartialEq, Eq)]
pub enum PathArguments {
    /// No arguments: `Foo`.
    Bare,
    /// Angle-bracketed arguments: `Foo<A, 'a, 3>`.
    AngleBracketed(Vec<GenericArgument>),
    /// Parenthesized arguments, kept as their text: `Fn(A) -> B`.
    Parenthesized(String),
}

/// One generic argument of a segment.
#[derive(Debug, PartialEq, Eq)]
pub enum GenericArgument {
    /// A type given as a path.
    Type(TypePath),
    /// Any other argument (a lifetime, a constant, a non-path type), kept as its text.
    Other(String),
}

/// The mathematical form of a path.
pub struct PathModel {
    pub leading_colon: bool,
    pub segments: Seq<SegmentModel>,
}

/// The mathematical form of a segment.
pub struct SegmentModel {
    pub ident: Seq<char>,
    pub arguments: ArgumentsModel,
}

/// The mathematical form of a segment's arguments.
pub enum ArgumentsModel {
    Bare,
    AngleBracketed(Seq<ArgModel>),
    Parenthesized(Seq<char>),
}

/// The mathematical form of a generic argument.
pub enum ArgModel {
    Type(PathModel),
    Other(Seq<char>),
}

pub open spec fn path_model(p: TypePath) -> PathModel
    decreases p,
{
    PathModel { leading_colon: p.leading_colon, segments: segments_model(p.segments@) }
}

pub open spec fn segments_model(s: Seq<PathSegment>) -> Seq<SegmentModel>
    decreases s,
{
    if s.len() == 0 {
        Seq::empty()
    } else {
        segments_model(s.drop_last()).push(segment_model(s.last()))
    }
}

pub open spec fn segment_model(g: PathSegment) -> SegmentModel
    decreases g,
{
    SegmentModel { ident: g.ident@, arguments: arguments_model(g.arguments) }
}

pub open spec fn arguments_model(a: PathArguments) -> ArgumentsModel
    decreases a,
{
    match a {
        PathArguments::Bare => ArgumentsModel::Bare,
        PathArguments::AngleBracketed(v) => ArgumentsModel::AngleBracketed(generic_args_model(v@)),
        PathArguments::Parenthesized(t) => ArgumentsModel::Parenthesized(t@),
    }
}

pub open spec fn generic_args_model(s: Seq<GenericArgument>) -> Seq<ArgModel>
    decreases s,
{
    if s.len() == 0 {
        Seq::empty()
    } else {
        generic_args_model(s.drop_last()).push(generic_arg_model(s.last()))
    }
}

pub open spec fn generic_arg_model(x: GenericArgument) -> ArgModel
    decreases x,
{
    match x {
        GenericArgument::Type(p) => ArgModel::Type(path_model(p)),
        GenericArgument::Other(t) => ArgModel::Other(t@),
    }
}

impl View for TypePath {
    type V = PathModel;

    open spec fn view(&self) -> PathModel {
        path_model(*self)
    }
}

impl View for PathSegment {
    type V = SegmentModel;

    open spec fn view(&self) -> SegmentModel {
        segment_model(*self)
    }
}

impl View for PathArguments {
    type V = ArgumentsModel;

    open spec fn view(&self) -> ArgumentsModel {
        arguments_model(*self)
    }
}

impl View for GenericArgument {
    type V = ArgModel;

    open spec fn view(&self) -> ArgModel {
        generic_arg_model(*self)
    }
}

/// The model of a segment list is the list of the segments' models.
pub proof fn lemma_segments_model(s: Seq<PathSegment>)
    ensures
        segments_model(s).len() == s.len(),
        forall|i: int| 0 <= i < s.len() ==> #[trigger] segments_model(s)[i] == segment_model(s[i]),
    decreases s.len(),
{
    if s.len() > 0 {
        lemma_segments_model(s.drop_last());
    }
}

/// The model of an argument list is the list of the arguments' models.
pub proof fn lemma_generic_args_model(s: Seq<GenericArgument>)
    ensures
        generic_args_model(s).len() == s.len(),
        forall|i: int| 0 <= i < s.len() ==> #[trigger] generic_args_model(s)[i] == generic_arg_model(s[i]),
    decreases s.len(),
{
    if s.len() > 0 {
        lemma_generic_args_model(s.drop_last());
    }
}

/// A path is absolute when it starts with `::` or with the segment `crate`.
pub open spec fn spec_is_absolute(p: PathModel) -> bool {
    p.leading_colon || (p.segments.len() > 0 && p.segments[0].ident == "crate"@)
}

/// Whether the path is anchored: a leading `::` or a first segment `crate`.
pub fn is_absolute(p: &TypePath) -> (r: bool)
    ensures
        r == spec_is_absolute(p@),
{
    proof {
        lemma_segments_model(p.segments@);
    }
    if p.leading_colon {
        return true;
    }
    if p.segments.len() == 0 {
        return false;
    }
    let marker = String::from_str("crate");
    proof {
        reveal_strlit("crate");
    }
    p.segments[0].ident == marker
}

/// Structural equality of two paths.
pub fn path_eq(a: &TypePath, b: &TypePath) -> (r: bool)
    ensures
        r == (a@ == b@),
    decreases a,
{
    proof {
        lemma_segments_model(a.segments@);
        lemma_segments_model(b.segments@);
    }
    if a.leading_colon != b.leading_colon || a.segments.len() != b.segments.len() {
        return false;
    }
    let n = a.segments.len();
    let mut i: usize = 0;
    while i < n
        invariant
            n == a.segments.len(),
            n == b.segments.len(),
            i <= n,
            segments_model(a.segments@).len() == n,
            segments_model(b.segments@).len() == n,
            forall|j: int| 0 <= j < i ==> segments_model(a.segments@)[j] == segments_model(b.segments@)[j],
        decreases n - i,
    {
        proof {
            lemma_segments_model(a.segments@);
            lemma_segments_model(b.segments@);
        }
        assert(decreases_to!(a => a.segments@[i as int]));
        if !segment_eq(&a.segments[i], &b.segments[i]) {
            assert(segments_model(a.segments@)[i as int] != segments_model(b.segments@)[i as int]);
            return false;
        }
        i = i + 1;
    }
    assert(segments_model(a.segments@) =~= segments_model(b.segments@));
    true
}

fn segment_eq(a: &PathSegment, b: &PathSegment) -> (r: bool)
    ensures
        r == (a@ == b@),
    decreases a,
{
    if a.ident != b.ident {
        return false;
    }
    arguments_eq(&a.arguments, &b.arguments)
}

fn arguments_eq(a: &PathArguments, b: &PathArguments) -> (r: bool)
    ensures
        r == (a@ == b@),
    decreases a,
{
    match a {
        PathArguments::Bare => match b {
            PathArguments::Bare => true,
            _ => false,
        },
        PathArguments::AngleBracketed(x) => match b {
            PathArguments::AngleBracketed(y) => {
                assert(decreases_to!(a => x));
                args_eq(x, y)
            },
            _ => false,
        },
        PathArguments::Parenthesized(x) => match b {
            PathArguments::Parenthesized(y) => *x == *y,
            _ => false,
        },
    }
}

fn args_eq(x: &Vec<GenericArgument>, y: &Vec<GenericArgument>) -> (r: bool)
    ensures
        r == (generic_args_model(x@) == generic_args_model(y@)),
    decreases x,
{
    proof {
        lemma_generic_args_model(x@);
        lemma_generic_args_model(y@);
    }
    if x.len() != y.len() {
        return false;
    }
    let n = x.len();
    let mut i: usize = 0;
    while i < n
        invariant
            n == x.len(),
            n == y.len(),
            i <= n,
            generic_args_model(x@).len() == n,
            generic_args_model(y@).len() == n,
            forall|j: int| 0 <= j < i ==> generic_args_model(x@)[j] == generic_args_model(y@)[j],
        decreases n - i,
    {
        proof {
            lemma_generic_args_model(x@);
            lemma_generic_args_model(y@);
        }
        if !generic_arg_eq(&x[i], &y[i]) {
            assert(generic_args_model(x@)[i as int] != generic_args_model(y@)[i as int]);
            return false;
        }
        i = i + 1;
    }
    assert(generic_args_model(x@) =~= generic_args_model(y@));
    true
}

fn generic_arg_eq(a: &GenericArgument, b: &GenericArgument) -> (r: bool)
    ensures
        r == (a@ == b@),
    decreases a,
{
    match a {
        GenericArgument::Type(x) => match b {
            GenericArgument::Type(y) => path_eq(x, y),
            _ => false,
        },
        GenericArgument::Other(x) => match b {
            GenericArgument::Other(y) => *x == *y,
            _ => false,
        },
    }
}

/// Whitespace, which the textual form of a path ignores.
pub open spec fn is_space(c: char) -> bool {
    c == ' ' || c == '\t' || c == '\n' || c == '\r'
}

/// The text with its whitespace removed.
pub open spec fn strip(s: Seq<char>) -> Seq<char>
    decreases s.len(),
{
    if s.len() == 0 {
        s
    } else if is_space(s.last()) {
        strip(s.drop_last())
    } else {
        strip(s.drop_last()).push(s.last())
    }
}

/// The whitespace-free textual form of a path, e.g. `::a::b<T,U>`.
pub open spec fn path_key(p: PathModel) -> Seq<char>
    decreases p,
{
    (if p.leading_colon {
        seq![':', ':']
    } else {
        Seq::empty()
    }) + segments_key(p.segments)
}

pub open spec fn segments_key(s: Seq<SegmentModel>) -> Seq<char>
    decreases s,
{
    if s.len() == 0 {
        Seq::empty()
    } else {
        segments_key(s.drop_last()) + (if s.len() > 1 {
            seq![':', ':']
        } else {
            Seq::empty()
        }) + segment_key(s.last())
    }
}

pub open spec fn segment_key(g: SegmentModel) -> Seq<char>
    decreases g,
{
    strip(g.ident) + arguments_key(g.arguments)
}

pub open spec fn arguments_key(a: ArgumentsModel) -> Seq<char>
    decreases a,
{
    match a {
        ArgumentsModel::Bare => Seq::empty(),
        ArgumentsModel::AngleBracketed(s) => seq!['<'] + args_key(s) + seq!['>'],
        ArgumentsModel::Parenthesized(t) => strip(t),
    }
}

pub open spec fn args_key(s: Seq<ArgModel>) -> Seq<char>
    decreases s,
{
    if s.len() == 0 {
        Seq::empty()
    } else {
        args_key(s.drop_last()) + (if s.len() > 1 {
            seq![',']
        } else {
            Seq::empty()
        }) + arg_key(s.last())
    }
}

pub open spec fn arg_key(x: ArgModel) -> Seq<char>
    decreases x,
{
    match x {
        ArgModel::Type(p) => path_key(p),
        ArgModel::Other(t) => strip(t),
    }
}

/// The type arguments among a segment's generic arguments, in order.
pub open spec fn spec_type_args(a: ArgumentsModel) -> Seq<PathModel> {
    match a {
        ArgumentsModel::AngleBracketed(s) => type_args_of(s),
        _ => Seq::empty(),
    }
}

pub open spec fn type_args_of(s: Seq<ArgModel>) -> Seq<PathModel>
    decreases s.len(),
{
    if s.len() == 0 {
        Seq::empty()
    } else {
        match s.last() {
            ArgModel::Type(p) => type_args_of(s.drop_last()).push(p),
            ArgModel::Other(_) => type_args_of(s.drop_last()),
        }
    }
}

/// Appends the text of `s` without its whitespace.
fn push_stripped(s: &String, out: &mut Vec<char>)
    ensures
        final(out)@ == old(out)@ + strip(s@),
{
    let n = s.as_str().unicode_len();
    let mut i: usize = 0;
    while i < n
        invariant
            n == s@.len(),
            i <= n,
            out@ == old(out)@ + strip(s@.take(i as int)),
        decreases n - i,
    {
        let c = s.as_str().get_char(i);
        assert(s@.take(i + 1).drop_last() =~= s@.take(i as int));
        if c != ' ' && c != '\t' && c != '\n' && c != '\r' {
            out.push(c);
        }
        i = i + 1;
    }
    assert(s@.take(n as int) =~= s@);
}

pub(crate) fn push_chars(lit: &str, out: &mut Vec<char>)
    ensures
        final(out)@ == old(out)@ + lit@,
{
    let n = lit.unicode_len();
    let mut i: usize = 0;
    while i < n
        invariant
            n == lit@.len(),
            i <= n,
            out@ == old(out)@ + lit@.take(i as int),
        decreases n - i,
    {
        out.push(lit.get_char(i));
        assert(lit@.take(i + 1) =~= lit@.take(i as int).push(lit@[i as int]));
        i = i + 1;
    }
    assert(lit@.take(n as int) =~= lit@);
}

/// Appends the whitespace-free textual form of `p`.
pub fn push_path_key(p: &TypePath, out: &mut Vec<char>)
    ensures
        final(out)@ == old(out)@ + path_key(p@),
    decreases p,
{
    proof {
        reveal_strlit("::");
    }
    if p.leading_colon {
        push_chars("::", out);
    }
    let ghost start = out@;
    let ghost segs = segments_model(p.segments@);
    let n = p.segments.len();
    let mut i: usize = 0;
    while i < n
        invariant
            n == p.segments.len(),
            i <= n,
            segs == segments_model(p.segments@),
            out@ == start + segments_key(segs.take(i as int)),
        decreases n - i,
    {
        proof {
            lemma_segments_model(p.segments@);
            reveal_strlit("::");
        }
        let ghost before = out@;
        if i > 0 {
            push_chars("::", out);
        }
        assert(decreases_to!(p => p.segments@[i as int]));
        push_segment_key(&p.segments[i], out);
        assert(segs.take(i + 1).drop_last() =~= segs.take(i as int));
        assert(out@ =~= start + segments_key(segs.take(i + 1)));
        i = i + 1;
    }
    proof {
        lemma_segments_model(p.segments@);
    }
    assert(segs.take(n as int) =~= segs);
    assert(out@ =~= old(out)@ + path_key(p@));
}

fn push_segment_key(g: &PathSegment, out: &mut Vec<char>)
    ensures
        final(out)@ == old(out)@ + segment_key(g@),
    decreases g,
{
    push_stripped(&g.ident, out);
    push_arguments_key(&g.arguments, out);
    assert(out@ =~= old(out)@ + segment_key(g@));
}

fn push_arguments_key(a: &PathArguments, out: &mut Vec<char>)
    ensures
        final(out)@ == old(out)@ + arguments_key(a@),
    decreases a,
{
    match a {
        PathArguments::Bare => {
            assert(out@ =~= old(out)@ + arguments_key(a@));
        },
        PathArguments::AngleBracketed(x) => {
            assert(decreases_to!(a => x));
            out.push('<');
            push_args_key(x, out);
            out.push('>');
            assert(a@ == ArgumentsModel::AngleBracketed(generic_args_model(x@)));
            assert(out@ =~= old(out)@ + arguments_key(a@));
        },
        PathArguments::Parenthesized(t) => {
            push_stripped(t, out);
            assert(a@ == ArgumentsModel::Parenthesized(t@));
        },
    }
}

fn push_args_key(x: &Vec<GenericArgument>, out: &mut Vec<char>)
    ensures
        final(out)@ == old(out)@ + args_key(generic_args_model(x@)),
    decreases x,
{
    let ghost start = out@;
    let ghost args = generic_args_model(x@);
    let n = x.len();
    let mut i: usize = 0;
    while i < n
        invariant
            n == x.len(),
            i <= n,
            args == generic_args_model(x@),
            out@ == start + args_key(args.take(i as int)),
        decreases n - i,
    {
        proof {
            lemma_generic_args_model(x@);
        }
        if i > 0 {
            out.push(',');
        }
        push_arg_key(&x[i], out);
        assert(args.take(i + 1).drop_last() =~= args.take(i as int));
        assert(out@ =~= start + args_key(args.take(i + 1)));
        i = i + 1;
    }
    proof {
        lemma_generic_args_model(x@);
    }
    assert(args.take(n as int) =~= args);
}

fn push_arg_key(x: &GenericArgument, out: &mut Vec<char>)
    ensures
        final(out)@ == old(out)@ + arg_key(x@),
    decreases x,
{
    match x {
        GenericArgument::Type(p) => {
            assert(x@ == ArgModel::Type(p@));
            push_path_key(p, out);
        },
        GenericArgument::Other(t) => {
            assert(x@ == ArgModel::Other(t@));
            push_stripped(t, out);
        },
    }
}

/// The whitespace-free textual form of `p`, by which substitutes are keyed.
pub fn key_of(p: &TypePath) -> (r: Vec<char>)
    ensures
        r@ == path_key(p@),
{
    let mut out: Vec<char> = Vec::new();
    push_path_key(p, &mut out);
    assert(out@ =~= path_key(p@));
    out
}

/// The type arguments of a segment's arguments, borrowed, in order.
pub fn type_args(a: &PathArguments) -> (r: Vec<&TypePath>)
    ensures
        r@.len() == spec_type_args(a@).len(),
        forall|i: int| 0 <= i < r@.len() ==> #[trigger] r@[i]@ == spec_type_args(a@)[i],
{
    let mut r: Vec<&TypePath> = Vec::new();
    match a {
        PathArguments::AngleBracketed(x) => {
            let ghost args = generic_args_model(x@);
            assert(a@ == ArgumentsModel::AngleBracketed(args));
            let n = x.len();
            let mut i: usize = 0;
            while i < n
                invariant
                    n == x.len(),
                    i <= n,
                    args == generic_args_model(x@),
                    r@.len() == type_args_of(args.take(i as int)).len(),
                    forall|j: int|
                        0 <= j < r@.len() ==> #[trigger] r@[j]@ == type_args_of(
                            args.take(i as int),
                        )[j],
                decreases n - i,
            {
                proof {
                    lemma_generic_args_model(x@);
                }
                assert(args.take(i + 1).drop_last() =~= args.take(i as int));
                match &x[i] {
                    GenericArgument::Type(p) => {
                        assert(args[i as int] == ArgModel::Type(p@));
                        r.push(p);
                    },
                    GenericArgument::Other(t) => {
                        assert(args[i as int] == ArgModel::Other(t@));
                    },
                }
                i = i + 1;
            }
            proof {
                lemma_generic_args_model(x@);
            }
            assert(args.take(n as int) =~= args);
        },
        _ => {},
    }
    r
}

impl TypePath {
    /// A copy of the path, equal to it in every part.
    pub fn deep_clone(&self) -> (r: TypePath)
        ensures
            r@ == self@,
        decreases self,
    {
        let ghost segs = segments_model(self.segments@);
        let mut out: Vec<PathSegment> = Vec::new();
        let n = self.segments.len();
        let mut i: usize = 0;
        while i < n
            invariant
                n == self.segments.len(),
                i <= n,
                segs == segments_model(self.segments@),
                segments_model(out@) == segs.take(i as int),
            decreases n - i,
        {
            proof {
                lemma_segments_model(self.segments@);
            }
            assert(decreases_to!(self => self.segments@[i as int]));
            let g = self.segments[i].deep_clone();
            let ghost prev = out@;
            out.push(g);
            assert(out@.drop_last() =~= prev);
            assert(segs.take(i + 1) =~= segs.take(i as int).push(segs[i as int]));
            i = i + 1;
        }
        proof {
            lemma_segments_model(self.segments@);
        }
        assert(segs.take(n as int) =~= segs);
        TypePath { leading_colon: self.leading_colon, segments: out }
    }
}

impl PathSegment {
    /// A copy of the segment, equal to it in every part.
    pub fn deep_clone(&self) -> (r: PathSegment)
        ensures
            r@ == self@,
        decreases self,
    {
        PathSegment { ident: self.ident.clone(), arguments: self.arguments.deep_clone() }
    }
}

impl PathArguments {
    /// A copy of the arguments, equal to them in every part.
    pub fn deep_clone(&self) -> (r: PathArguments)
        ensures
            r@ == self@,
        decreases self,
    {
        match self {
            PathArguments::Bare => PathArguments::Bare,
            PathArguments::AngleBracketed(x) => {
                assert(decreases_to!(self => x));
                PathArguments::AngleBracketed(clone_args(x))
            },
            PathArguments::Parenthesized(t) => PathArguments::Parenthesized(t.clone()),
        }
    }
}

fn clone_args(x: &Vec<GenericArgument>) -> (r: Vec<GenericArgument>)
    ensures
        generic_args_model(r@) == generic_args_model(x@),
    decreases x,
{
    let ghost args = generic_args_model(x@);
    let mut out: Vec<GenericArgument> = Vec::new();
    let n = x.len();
    let mut i: usize = 0;
    while i < n
        invariant
            n == x.len(),
            i <= n,
            args == generic_args_model(x@),
            generic_args_model(out@) == args.take(i as int),
        decreases n - i,
    {
        proof {
            lemma_generic_args_model(x@);
        }
        let c = x[i].deep_clone();
        let ghost prev = out@;
        out.push(c);
        assert(out@.drop_last() =~= prev);
        assert(args.take(i + 1) =~= args.take(i as int).push(args[i as int]));
        i = i + 1;
    }
    proof {
        lemma_generic_args_model(x@);
    }
    assert(args.take(n as int) =~= args);
    out
}

impl GenericArgument {
    /// A copy of the argument, equal to it in every part.
    pub fn deep_clone(&self) -> (r: GenericArgument)
        ensures
            r@ == self@,
        decreases self,
    {
        match self {
            GenericArgument::Type(p) => GenericArgument::Type(p.deep_clone()),
            GenericArgument::Other(t) => GenericArgument::Other(t.clone()),
        }
    }
}

} // verus!
