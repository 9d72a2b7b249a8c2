//! Named text templates with positional parameters. A definition stores its
//! parameter names behind a `$` marker; expansion is pure left-to-right text
//! substitution, whose result is re-tokenised by the caller.

use vstd::prelude::*;
use crate::errors::{AvcErr, ErrView};
use crate::text::{spec_replace, spec_split_plain, spec_trim, replace_all, split_and_trim};
use crate::utils::{spec_split_groups, split_bracket_groups};

verus! {

/// A macro: its body text and its marked parameter names.
#[derive(Debug, PartialEq, Eq)]
pub struct AvcMacro {
    pub text: String,
    pub args: Vec<String>,
}

/// The spec-level shape of a macro.
pub struct MacroView {
    pub params: Seq<Seq<char>>,
    pub body: Seq<char>,
}

impl View for AvcMacro {
    type V = MacroView;

    open spec fn view(&self) -> MacroView {
        MacroView { params: self.args.deep_view(), body: self.text@ }
    }
}

/// Every parameter name carries its marker, so none is empty.
pub open spec fn macro_wf(m: MacroView) -> bool {
    forall|i: int| 0 <= i < m.params.len() ==> m.params[i].len() > 0
}

/// What defining a macro from the directive argument text `mac` yields: the
/// text splits at top-level commas into name, parenthesised parameter list
/// and parenthesised body; a list that is not properly parenthesised is a
/// malformed directive.
pub open spec fn spec_macro_new(mac: Seq<char>) -> Result<MacroView, ErrView> {
    let segs = spec_split_groups(mac, ',');
    if segs.len() < 3 {
        Err(ErrView::MalformedDirective(mac))
    } else {
        let ps = segs[1];
        let bs = segs[2];
        if !(ps.len() >= 2 && ps[0] == '(' && ps[ps.len() - 1] == ')') {
            Err(ErrView::MalformedDirective(mac))
        } else if !(bs.len() >= 2 && bs[0] == '(' && bs[bs.len() - 1] == ')') {
            Err(ErrView::MalformedDirective(mac))
        } else {
            let inner = ps.subrange(1, ps.len() - 1);
            let params = spec_split_plain(inner, ',').map_values(
                |p: Seq<char>| seq!['$'] + spec_trim(p),
            );
            Ok(MacroView { params, body: bs.subrange(1, bs.len() - 1) })
        }
    }
}

/// The body after substituting, for each parameter in order, every
/// occurrence of its marker by the matching argument.
pub open spec fn spec_expand_from(
    body: Seq<char>,
    params: Seq<Seq<char>>,
    args: Seq<Seq<char>>,
    j: int,
) -> Seq<char>
    decreases params.len() - j,
{
    if j < 0 || j >= params.len() {
        body
    } else {
        spec_expand_from(spec_replace(body, params[j], args[j]), params, args, j + 1)
    }
}

/// The expansion of macro `m` on the argument texts `args`.
pub open spec fn spec_expand(m: MacroView, args: Seq<Seq<char>>) -> Seq<char> {
    spec_expand_from(m.body, m.params, args, 0)
}

impl AvcMacro {
    /// Parses a `defmac` argument list — `name, (params...), (body)` — into
    /// a macro, exactly as [`spec_macro_new`] describes.
    pub fn new(mac: &str) -> (r: Result<AvcMacro, AvcErr>)
        ensures
            match r {
                Ok(m) => spec_macro_new(mac@) == Ok::<MacroView, ErrView>(m@) && macro_wf(m@),
                Err(e) => spec_macro_new(mac@) == Err::<MacroView, ErrView>(e@),
            },
    {
        let segments = split_bracket_groups(mac, ',');
        if segments.len() < 3 {
            return Err(AvcErr::MalformedDirective(mac.to_owned()));
        }
        let ps: &str = segments[1];
        let bs: &str = segments[2];
        let plen = ps.unicode_len();
        let blen = bs.unicode_len();
        proof {
            assert(segments.deep_view()[1] == ps@);
            assert(segments.deep_view()[2] == bs@);
        }
        if !(plen >= 2 && ps.get_char(0) == '(' && ps.get_char(plen - 1) == ')') {
            return Err(AvcErr::MalformedDirective(mac.to_owned()));
        }
        if !(blen >= 2 && bs.get_char(0) == '(' && bs.get_char(blen - 1) == ')') {
            return Err(AvcErr::MalformedDirective(mac.to_owned()));
        }
        let inner = ps.substring_char(1, plen - 1);
        let pieces = split_and_trim(inner, ',');
        let ghost target = spec_split_plain(inner@, ',').map_values(
            |p: Seq<char>| seq!['$'] + spec_trim(p),
        );
        let mut args: Vec<String> = Vec::new();
        let mut j: usize = 0;
        proof {
            reveal_strlit("$");
            assert(args.deep_view() =~= target.take(0));
        }
        while j < pieces.len()
            invariant
                0 <= j <= pieces.len(),
                pieces.deep_view() == spec_split_plain(inner@, ',').map_values(
                    |p: Seq<char>| spec_trim(p),
                ),
                target == spec_split_plain(inner@, ',').map_values(
                    |p: Seq<char>| seq!['$'] + spec_trim(p),
                ),
                args.deep_view() == target.take(j as int),
            decreases pieces.len() - j,
        {
            let mut marked = String::new();
            marked.append("$");
            marked.append(pieces[j]);
            proof {
                reveal_strlit("$");
                assert("$"@ =~= seq!['$']);
                assert(pieces.deep_view().len() == pieces@.len());
                assert(target.len() == pieces.deep_view().len());
                assert(pieces.deep_view()[j as int] == spec_trim(
                    spec_split_plain(inner@, ',')[j as int],
                ));
                assert(marked@ =~= seq!['$'] + spec_trim(spec_split_plain(inner@, ',')[j as int]));
                assert(target[j as int] == seq!['$'] + spec_trim(
                    spec_split_plain(inner@, ',')[j as int],
                ));
            }
            let ghost pre = args.deep_view();
            args.push(marked);
            proof {
                assert(args.deep_view() =~= pre.push(marked@));
                assert(args.deep_view() =~= target.take(j + 1));
            }
            j += 1;
        }
        proof {
            assert(pieces.deep_view().len() == pieces@.len());
            assert(target.len() == pieces.deep_view().len());
            assert(target.take(pieces.len() as int) =~= target);
        }
        let body = bs.substring_char(1, blen - 1);
        let m = AvcMacro { text: body.to_owned(), args };
        proof {
            assert(m@.params =~= target);
        }
        Ok(m)
    }

    /// Substitutes `args`, in order, for this macro's parameters in its body;
    /// the caller owes as many arguments as there are parameters.
    pub fn expand(&self, args: Vec<&str>) -> (r: String)
        requires
            args@.len() == self.args@.len(),
            macro_wf(self@),
        ensures
            r@ == spec_expand(self@, args.deep_view()),
    {
        let mut expansion = self.text.clone();
        let mut j: usize = 0;
        while j < args.len()
            invariant
                0 <= j <= args.len(),
                args@.len() == self.args@.len(),
                macro_wf(self@),
                spec_expand(self@, args.deep_view()) == spec_expand_from(
                    expansion@,
                    self@.params,
                    args.deep_view(),
                    j as int,
                ),
            decreases args.len() - j,
        {
            proof {
                assert(self@.params[j as int] == self.args@[j as int]@);
                assert(args.deep_view()[j as int] == args@[j as int]@);
            }
            expansion = replace_all(expansion.as_str(), self.args[j].as_str(), args[j]);
            j += 1;
        }
        expansion
    }
}

} // verus!
