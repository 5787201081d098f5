//! The memo attribute of components: a component function becomes one that
//! hands its parameters (but the leading `ui`) to the UI's memo call, so
//! that it runs again only when they change.
//!
//! Here is what the attribute decides: how the parameters are passed on.
use vstd::prelude::*;

use quote::ToTokens;

verus! {

/// A parameter of the annotated function.
#[derive(Debug, Clone)]
pub enum FnParam {
    /// `self`, by value or by reference.
    Receiver,
    /// A parameter given by a pattern and a type; the text of the pattern.
    Typed(String),
}

/// The view of a parameter.
pub enum ParamView {
    Receiver,
    Typed(Seq<char>),
}

/// The view of a parameter.
pub open spec fn param_view(p: FnParam) -> ParamView {
    match p {
        FnParam::Receiver => ParamView::Receiver,
        FnParam::Typed(s) => ParamView::Typed(s@),
    }
}

/// The views of a list of parameters.
pub open spec fn param_views(ps: Seq<FnParam>) -> Seq<ParamView> {
    ps.map_values(|p: FnParam| param_view(p))
}

/// What kind of parameter a parameter is.
pub enum ParamKind {
    Receiver,
    Typed,
}

/// The kind of a parameter view.
pub open spec fn kind_of(p: ParamView) -> ParamKind {
    match p {
        ParamView::Receiver => ParamKind::Receiver,
        ParamView::Typed(_) => ParamKind::Typed,
    }
}

/// The kinds of a list of parameter views.
pub open spec fn kinds_of(ps: Seq<ParamView>) -> Seq<ParamKind> {
    ps.map_values(|p: ParamView| kind_of(p))
}

/// The kinds of the parameters of the function that `item` holds, in
/// order; `None` when `item` is not a function.
pub uninterp spec fn parsed_param_kinds(item: Seq<char>) -> Option<Seq<ParamKind>>;

/// Parses `item` as a function with `syn::parse_str::<syn::ItemFn>` and
/// lists its parameters, printing each pattern with `ToTokens`. The
/// contract states which parameters are receivers and which are typed;
/// the printed text of a pattern is left unsaid, since how proc-macro2
/// prints tokens depends on whether it runs inside a procedural macro.
#[verifier::external_body]
fn parse_fn_params(item: &str) -> (r: Option<Vec<FnParam>>)
    ensures
        match r {
            Some(v) => parsed_param_kinds(item@) == Some(kinds_of(param_views(v@))),
            None => parsed_param_kinds(item@) is None,
        },
{
    let f = syn::parse_str::<syn::ItemFn>(item).ok()?;
    Some(
        f.sig.inputs.iter().map(
            |a| match a {
                syn::FnArg::Receiver(_) => FnParam::Receiver,
                syn::FnArg::Typed(t) => FnParam::Typed(t.pat.to_token_stream().to_string()),
            },
        ).collect(),
    )
}

/// The argument that the memoized component hands to the memo call of the UI.
#[derive(Debug, Clone)]
pub enum MemoArg {
    /// `()`: the function has no parameter but `ui`.
    Unit,
    /// `(p,)`: the one pattern after `ui`.
    Single(String),
    /// `(p1, p2, ...)`: the patterns after `ui`, in order.
    Tuple(Vec<String>),
    /// The one parameter after `ui` is a receiver: an error is reported.
    Invalid,
}

/// The view of a memo argument.
pub enum ArgView {
    Unit,
    Single(Seq<char>),
    Tuple(Seq<Seq<char>>),
    Invalid,
}

/// The view of a memo argument.
pub open spec fn arg_view(a: MemoArg) -> ArgView {
    match a {
        MemoArg::Unit => ArgView::Unit,
        MemoArg::Single(s) => ArgView::Single(s@),
        MemoArg::Tuple(v) => ArgView::Tuple(v@.map_values(|s: String| s@)),
        MemoArg::Invalid => ArgView::Invalid,
    }
}

/// The patterns of the typed parameters of `ps`, in order; receivers are
/// left out.
pub open spec fn typed_patterns(ps: Seq<ParamView>) -> Seq<Seq<char>>
    decreases ps.len(),
{
    if ps.len() == 0 {
        Seq::empty()
    } else {
        let rest = typed_patterns(ps.drop_last());
        match ps.last() {
            ParamView::Typed(p) => rest.push(p),
            ParamView::Receiver => rest,
        }
    }
}

/// The argument for the parameters `ps` (the first being `ui`): a unit for
/// none after it, a one-element tuple for one typed parameter (an error for
/// a receiver), and the tuple of the typed patterns after the first
/// otherwise.
pub open spec fn memo_arg_of(ps: Seq<ParamView>) -> ArgView {
    if ps.len() == 1 {
        ArgView::Unit
    } else if ps.len() == 2 {
        match ps[1] {
            ParamView::Typed(p) => ArgView::Single(p),
            ParamView::Receiver => ArgView::Invalid,
        }
    } else {
        ArgView::Tuple(typed_patterns(ps.skip(1)))
    }
}

/// The argument to hand to the memo call of the UI for a function with the
/// parameters `params`; the first parameter is `ui`, so there must be one.
pub fn memo_arg(params: &Vec<FnParam>) -> (a: MemoArg)
    requires
        params@.len() >= 1,
    ensures
        arg_view(a) == memo_arg_of(param_views(params@)),
{
    let n = params.len();
    if n == 1 {
        return MemoArg::Unit;
    }
    if n == 2 {
        return match &params[1] {
            FnParam::Typed(p) => MemoArg::Single(p.clone()),
            FnParam::Receiver => MemoArg::Invalid,
        };
    }
    let ghost views = param_views(params@);
    let mut args: Vec<String> = Vec::new();
    let mut i: usize = 1;
    while i < n
        invariant
            n == params@.len(),
            n >= 3,
            1 <= i <= n,
            views == param_views(params@),
            args@.map_values(|s: String| s@) == typed_patterns(views.skip(1).take(i - 1)),
        decreases n - i,
    {
        assert(views.skip(1).take(i as int).drop_last() =~= views.skip(1).take(i - 1));
        assert(views.skip(1).take(i as int).last() == param_view(params@[i as int]));
        match &params[i] {
            FnParam::Typed(p) => {
                args.push(p.clone());
                assert(args@.map_values(|s: String| s@) =~= typed_patterns(views.skip(1).take(i - 1)).push(
                    p@,
                ));
            },
            FnParam::Receiver => {},
        }
        i += 1;
    }
    assert(views.skip(1).take(n - 1) =~= views.skip(1));
    MemoArg::Tuple(args)
}

/// The parameters of the function that `item` holds, as `syn` parses and
/// prints them, with the argument to hand to the memo call of the UI for
/// them; `None` when `item` is not a function or has no parameter at all
/// (the attribute cannot expand there). The parameters have the kinds that
/// `item` declares, and the argument is the one `memo_arg` builds for them.
pub fn memo_call_arg(item: &str) -> (r: Option<(Vec<FnParam>, MemoArg)>)
    ensures
        match parsed_param_kinds(item@) {
            Some(ks) => if ks.len() >= 1 {
                match r {
                    Some((ps, a)) => kinds_of(param_views(ps@)) == ks && arg_view(a) == memo_arg_of(
                        param_views(ps@),
                    ),
                    None => false,
                }
            } else {
                r is None
            },
            None => r is None,
        },
{
    match parse_fn_params(item) {
        Some(params) => {
            if params.len() >= 1 {
                let a = memo_arg(&params);
                Some((params, a))
            } else {
                None
            }
        },
        None => None,
    }
}

} // verus!
