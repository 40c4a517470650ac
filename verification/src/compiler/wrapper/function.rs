//! A function signature read out of a foreign source.

use vstd::prelude::*;
use crate::text::owned;

verus! {

/// A foreign function: its name, its Brief return type, its parameters
/// (name and Brief type), whether it takes a variable number of arguments,
/// and the comments found with it.
#[derive(Debug, Clone)]
pub struct AnalyzedFunction {
    pub name: String,
    pub return_type: String,
    pub parameters: Vec<(String, String)>,
    pub is_variadic: bool,
    pub comments: Vec<String>,
}

pub struct AnalyzedFunctionV {
    pub name: Seq<char>,
    pub return_type: Seq<char>,
    pub parameters: Seq<(Seq<char>, Seq<char>)>,
    pub is_variadic: bool,
    pub comments: Seq<Seq<char>>,
}

pub open spec fn param_views(v: Seq<(String, String)>) -> Seq<(Seq<char>, Seq<char>)> {
    v.map_values(|p: (String, String)| (p.0@, p.1@))
}

impl View for AnalyzedFunction {
    type V = AnalyzedFunctionV;

    open spec fn view(&self) -> AnalyzedFunctionV {
        AnalyzedFunctionV {
            name: self.name@,
            return_type: self.return_type@,
            parameters: param_views(self.parameters@),
            is_variadic: self.is_variadic,
            comments: self.comments@.map_values(|s: String| s@),
        }
    }
}

/// `name: Type` for each parameter, separated by `, `.
pub open spec fn params_text(ps: Seq<(Seq<char>, Seq<char>)>) -> Seq<char>
    decreases ps.len(),
{
    if ps.len() == 0 {
        Seq::empty()
    } else if ps.len() == 1 {
        ps[0].0 + ": "@ + ps[0].1
    } else {
        params_text(ps.drop_last()) + ", "@ + ps.last().0 + ": "@ + ps.last().1
    }
}

/// The `frgn sig` declaration of a function.
pub open spec fn frgn_sig_text(f: AnalyzedFunctionV) -> Seq<char> {
    "frgn sig "@ + f.name + ": "@ + params_text(f.parameters) + " -> "@ + f.return_type + ";"@
}

/// Writes the `frgn sig` declaration of a function.
pub fn frgn_sig(func: &AnalyzedFunction) -> (s: String)
    ensures
        s@ == frgn_sig_text(func@),
{
    let mut s = owned("frgn sig ");
    s.append(func.name.as_str());
    s.append(": ");
    let ghost base = s@;
    let ghost pv = param_views(func.parameters@);
    let mut i: usize = 0;
    while i < func.parameters.len()
        invariant
            i <= func.parameters@.len(),
            pv == param_views(func.parameters@),
            s@ == base + params_text(pv.subrange(0, i as int)),
        decreases func.parameters@.len() - i,
    {
        if i > 0 {
            s.append(", ");
        }
        s.append(func.parameters[i].0.as_str());
        s.append(": ");
        s.append(func.parameters[i].1.as_str());
        proof {
            assert(pv.subrange(0, i + 1).drop_last() =~= pv.subrange(0, i as int));
            assert(pv.subrange(0, i + 1).last() == (func.parameters@[i as int].0@, func.parameters@[i as int].1@));
        }
        i = i + 1;
    }
    assert(pv.subrange(0, func.parameters@.len() as int) =~= pv);
    s.append(" -> ");
    s.append(func.return_type.as_str());
    s.append(";");
    s
}

} // verus!
