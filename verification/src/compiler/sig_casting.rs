//! Signature casting: a signature may project some of the output types of
//! the definition it is bound to; these checks say whether it asks only for
//! types the definition produces.

use vstd::prelude::*;
use crate::text::{owned, joined, decimal, push_decimal};
use crate::seqs::{first_index, lemma_first_index_is, lemma_first_index_none};
use crate::compiler::ast::{Type, TypeV, OutputType, ResultType, Signature, Definition, type_list, output_types, lemma_types_view};
use crate::compiler::ffi::types::{debug_type, type_debug};

verus! {

/// Every requested type is among the types the definition produces.
pub open spec fn projection_ok(sig_types: Seq<TypeV>, produced: Seq<TypeV>) -> bool {
    forall|i: int| 0 <= i < sig_types.len() ==> produced.contains(#[trigger] sig_types[i])
}

/// Whether a signature asking for `sig_types` can project them from a
/// definition with outputs `defn_output`: each must be among its types, in
/// any order.
pub fn is_valid_projection(sig_types: &[Type], defn_output: &OutputType) -> (r: bool)
    ensures
        r == projection_ok(type_list(sig_types@), output_types(*defn_output)),
{
    let defn_types = defn_output.all_types();
    proof {
        lemma_types_view(sig_types@, sig_types@.len() as int);
        lemma_types_view(defn_types@, defn_types@.len() as int);
    }
    let ghost st = type_list(sig_types@);
    let ghost dt = type_list(defn_types@);
    let mut i: usize = 0;
    while i < sig_types.len()
        invariant
            i <= sig_types@.len(),
            st == type_list(sig_types@),
            dt == type_list(defn_types@),
            dt == output_types(*defn_output),
            st.len() == sig_types@.len(),
            dt.len() == defn_types@.len(),
            forall|k: int| 0 <= k < st.len() ==> #[trigger] st[k] == sig_types@[k]@,
            forall|k: int| 0 <= k < dt.len() ==> #[trigger] dt[k] == defn_types@[k]@,
            forall|k: int| 0 <= k < i ==> dt.contains(#[trigger] st[k]),
        decreases sig_types@.len() - i,
    {
        if !contains_type(&defn_types, &sig_types[i]) {
            assert(!dt.contains(st[i as int]));
            return false;
        }
        i = i + 1;
    }
    true
}

fn contains_type(v: &Vec<Type>, t: &Type) -> (r: bool)
    ensures
        r == type_list(v@).contains(t@),
{
    proof { lemma_types_view(v@, v@.len() as int); }
    let ghost tl = type_list(v@);
    let mut j: usize = 0;
    while j < v.len()
        invariant
            j <= v@.len(),
            tl == type_list(v@),
            tl.len() == v@.len(),
            forall|k: int| 0 <= k < tl.len() ==> #[trigger] tl[k] == v@[k]@,
            forall|k: int| 0 <= k < j ==> tl[k] != t@,
        decreases v@.len() - j,
    {
        if v[j].same(t) {
            assert(tl[j as int] == t@);
            return true;
        }
        j = j + 1;
    }
    false
}

/// What `{:?}` writes for a list of types.
pub open spec fn types_debug(ts: Seq<TypeV>) -> Seq<char> {
    "["@ + joined(ts.map_values(|t: TypeV| type_debug(t)), ", "@) + "]"@
}

/// The types a signature requests.
pub open spec fn requested(r: ResultType) -> Seq<TypeV> {
    match r {
        ResultType::Projection(ts) => type_list(ts@),
        _ => seq![],
    }
}

pub open spec fn not_in(produced: Seq<TypeV>, st: Seq<TypeV>) -> spec_fn(int) -> bool {
    |i: int| !produced.contains(st[i])
}

pub open spec fn differs(st: Seq<TypeV>, outs: Seq<TypeV>) -> spec_fn(int) -> bool {
    |i: int| st[i] != outs[i]
}

/// The outcome of checking signature `sig` against definition `defn`: with
/// an output structure, the first requested type it does not produce is an
/// error; with plain outputs, the counts must agree and the types must
/// match in order.
pub open spec fn projection_check(sig: Signature, defn: Definition) -> Result<(), Seq<char>> {
    let st = requested(sig.result_type);
    match defn.output_type {
        Some(o) => {
            let dt = output_types(o);
            match first_index(st.len(), not_in(dt, st)) {
                Some(i) => Err("Sig '"@ + sig.name@ + "' requests type "@ + type_debug(st[i]) + " not producible by defn '"@
                    + defn.name@ + "'\nDefn produces: "@ + types_debug(dt)),
                None => Ok(()),
            }
        },
        None => {
            let outs = type_list(defn.outputs@);
            if st.len() != outs.len() {
                Err("Sig '"@ + sig.name@ + "' requests "@ + decimal(st.len()) + " types, but defn '"@ + defn.name@
                    + "' produces "@ + decimal(outs.len()))
            } else {
                match first_index(st.len(), differs(st, outs)) {
                    Some(i) => Err("Sig '"@ + sig.name@ + "' requests "@ + type_debug(st[i]) + " but defn '"@ + defn.name@
                        + "' produces "@ + type_debug(outs[i])),
                    None => Ok(()),
                }
            }
        },
    }
}

pub(crate) fn debug_types(ts: &Vec<Type>) -> (s: String)
    ensures
        s@ == types_debug(type_list(ts@)),
{
    proof { lemma_types_view(ts@, ts@.len() as int); }
    let ghost tl = type_list(ts@);
    let ghost ds = tl.map_values(|t: TypeV| type_debug(t));
    let mut s = owned("[");
    let mut i: usize = 0;
    assert(ds.subrange(0, 0) =~= Seq::<Seq<char>>::empty());
    while i < ts.len()
        invariant
            i <= ts@.len(),
            tl == type_list(ts@),
            tl.len() == ts@.len(),
            ds == tl.map_values(|t: TypeV| type_debug(t)),
            forall|k: int| 0 <= k < tl.len() ==> #[trigger] tl[k] == ts@[k]@,
            s@ == "["@ + joined(ds.subrange(0, i as int), ", "@),
        decreases ts@.len() - i,
    {
        let d = debug_type(&ts[i]);
        assert(ds.subrange(0, i + 1).drop_last() =~= ds.subrange(0, i as int));
        assert(ds.subrange(0, i + 1).last() == d@);
        if i > 0 {
            s.append(", ");
        } else {
            assert(ds.subrange(0, 1) =~= seq![d@]);
        }
        s.append(d.as_str());
        i = i + 1;
    }
    assert(ds.subrange(0, ts@.len() as int) =~= ds);
    s.append("]");
    s
}

/// Checks that signature `sig` asks only for what definition `defn`
/// produces; the error says what it asked for and what is produced.
pub fn verify_sig_projection(sig: &Signature, defn: &Definition) -> (r: Result<(), String>)
    ensures
        match (r, projection_check(*sig, *defn)) {
            (Ok(()), Ok(())) => true,
            (Err(m), Err(n)) => m@ == n,
            _ => false,
        },
{
    let empty: Vec<Type> = Vec::new();
    let sig_types: &Vec<Type> = match &sig.result_type {
        ResultType::Projection(ts) => ts,
        _ => &empty,
    };
    proof { lemma_types_view(sig_types@, sig_types@.len() as int); }
    let ghost st = type_list(sig_types@);
    assert(st == requested(sig.result_type)) by {
        if !(sig.result_type is Projection) {
            assert(type_list(empty@) =~= Seq::<TypeV>::empty());
        }
    }
    match &defn.output_type {
        Some(o) => {
            let defn_types = o.all_types();
            let ghost dt = type_list(defn_types@);
            let ghost p = not_in(dt, st);
            let mut i: usize = 0;
            while i < sig_types.len()
                invariant
                    i <= sig_types@.len(),
                    st == type_list(sig_types@),
                    st.len() == sig_types@.len(),
                    forall|k: int| 0 <= k < st.len() ==> #[trigger] st[k] == sig_types@[k]@,
                    dt == type_list(defn_types@),
                    dt == output_types(*o),
                    defn.output_type == Some(*o),
                    st == requested(sig.result_type),
                    p == not_in(dt, st),
                    forall|k: int| 0 <= k < i ==> !#[trigger] p(k),
                decreases sig_types@.len() - i,
            {
                if !contains_type(&defn_types, &sig_types[i]) {
                    proof { lemma_first_index_is(st.len(), p, i as int); }
                    let mut m = owned("Sig '");
                    m.append(sig.name.as_str());
                    m.append("' requests type ");
                    let d = debug_type(&sig_types[i]);
                    m.append(d.as_str());
                    m.append(" not producible by defn '");
                    m.append(defn.name.as_str());
                    m.append("'\nDefn produces: ");
                    let all = debug_types(&defn_types);
                    m.append(all.as_str());
                    return Err(m);
                }
                i = i + 1;
            }
            proof { lemma_first_index_none(st.len(), p); }
            Ok(())
        }
        None => {
            proof { lemma_types_view(defn.outputs@, defn.outputs@.len() as int); }
            let ghost outs = type_list(defn.outputs@);
            if sig_types.len() != defn.outputs.len() {
                let mut m = owned("Sig '");
                m.append(sig.name.as_str());
                m.append("' requests ");
                push_decimal(&mut m, sig_types.len() as u64);
                m.append(" types, but defn '");
                m.append(defn.name.as_str());
                m.append("' produces ");
                push_decimal(&mut m, defn.outputs.len() as u64);
                return Err(m);
            }
            let ghost p = differs(st, outs);
            let mut i: usize = 0;
            while i < sig_types.len()
                invariant
                    i <= sig_types@.len(),
                    sig_types@.len() == defn.outputs@.len(),
                    st == type_list(sig_types@),
                    st.len() == sig_types@.len(),
                    outs == type_list(defn.outputs@),
                    outs.len() == defn.outputs@.len(),
                    forall|k: int| 0 <= k < st.len() ==> #[trigger] st[k] == sig_types@[k]@,
                    forall|k: int| 0 <= k < outs.len() ==> #[trigger] outs[k] == defn.outputs@[k]@,
                    p == differs(st, outs),
                    defn.output_type is None,
                    st == requested(sig.result_type),
                    forall|k: int| 0 <= k < i ==> !#[trigger] p(k),
                decreases sig_types@.len() - i,
            {
                if !sig_types[i].same(&defn.outputs[i]) {
                    proof { lemma_first_index_is(st.len(), p, i as int); }
                    let mut m = owned("Sig '");
                    m.append(sig.name.as_str());
                    m.append("' requests ");
                    let d = debug_type(&sig_types[i]);
                    m.append(d.as_str());
                    m.append(" but defn '");
                    m.append(defn.name.as_str());
                    m.append("' produces ");
                    let e = debug_type(&defn.outputs[i]);
                    m.append(e.as_str());
                    return Err(m);
                }
                i = i + 1;
            }
            proof { lemma_first_index_none(st.len(), p); }
            Ok(())
        }
    }
}

} // verus!
