//! TOML documents as plain values: the tree of strings, integers, arrays
//! and tables that the syscall bindings read (other values are `Other`),
//! and the walk over `[[syscalls]]` entries that gives each named system
//! call its numbers per target.

use vstd::prelude::*;
use crate::text::{chars_of, eq_str};
use toml::Value;

verus! {

use TomlTok::{Str, Int, Array, Table, Other};

/// One step of a TOML value written out in pre-order, members last first:
/// a leaf, or the start of an array or table with its number of members. A
/// table's member is an entry, written as a pair: `Array(2)`, then its value,
/// then its key as a string.
#[derive(Debug)]
pub enum TomlTok {
    Str(String),
    Int(i64),
    Array(usize),
    Table(usize),
    Other,
}

pub enum TomlTokV {
    Str(Seq<char>),
    Int(i64),
    Array(nat),
    Table(nat),
    Other,
}

pub open spec fn tok_view(t: TomlTok) -> TomlTokV {
    match t {
        TomlTok::Str(s) => TomlTokV::Str(s@),
        TomlTok::Int(i) => TomlTokV::Int(i),
        TomlTok::Array(n) => TomlTokV::Array(n as nat),
        TomlTok::Table(n) => TomlTokV::Table(n as nat),
        TomlTok::Other => TomlTokV::Other,
    }
}

pub open spec fn toks_view(s: Seq<TomlTok>) -> Seq<TomlTokV> {
    s.map_values(|t: TomlTok| tok_view(t))
}

/// A TOML value: a string, an integer, an array, a table (its entries in
/// the order the table gives them), or any other kind of value.
#[derive(Debug)]
pub enum TomlData {
    Str(String),
    Int(i64),
    Array(Vec<TomlData>),
    Table(Vec<(String, TomlData)>),
    Other,
}

pub enum TomlDataV {
    Str(Seq<char>),
    Int(i64),
    Array(Seq<TomlDataV>),
    Table(Seq<(Seq<char>, TomlDataV)>),
    Other,
}

pub open spec fn data_view(d: TomlData) -> TomlDataV
    decreases d,
{
    match d {
        TomlData::Str(s) => TomlDataV::Str(s@),
        TomlData::Int(i) => TomlDataV::Int(i),
        TomlData::Array(v) => TomlDataV::Array(datas_view(v@, v@.len() as int)),
        TomlData::Table(v) => TomlDataV::Table(entries_view(v@, v@.len() as int)),
        TomlData::Other => TomlDataV::Other,
    }
}

pub open spec fn datas_view(s: Seq<TomlData>, n: int) -> Seq<TomlDataV>
    decreases s, n,
{
    if n <= 0 || n > s.len() {
        seq![]
    } else {
        datas_view(s, n - 1).push(data_view(s[n - 1]))
    }
}

pub open spec fn entries_view(s: Seq<(String, TomlData)>, n: int) -> Seq<(Seq<char>, TomlDataV)>
    decreases s, n,
{
    if n <= 0 || n > s.len() {
        seq![]
    } else {
        entries_view(s, n - 1).push((s[n - 1].0@, data_view(s[n - 1].1)))
    }
}

impl View for TomlData {
    type V = TomlDataV;

    open spec fn view(&self) -> TomlDataV {
        data_view(*self)
    }
}

proof fn lemma_datas_view(s: Seq<TomlData>, n: int)
    requires
        0 <= n <= s.len(),
    ensures
        datas_view(s, n).len() == n,
        forall|i: int| 0 <= i < n ==> #[trigger] datas_view(s, n)[i] == data_view(s[i]),
    decreases n,
{
    if n > 0 {
        lemma_datas_view(s, n - 1);
    }
}

proof fn lemma_entries_view(s: Seq<(String, TomlData)>, n: int)
    requires
        0 <= n <= s.len(),
    ensures
        entries_view(s, n).len() == n,
        forall|i: int| 0 <= i < n ==> #[trigger] entries_view(s, n)[i] == (s[i].0@, data_view(s[i].1)),
    decreases n,
{
    if n > 0 {
        lemma_entries_view(s, n - 1);
    }
}

/// The value that starts at `p` of the pre-order steps `t`, and the
/// position after it.
pub open spec fn dec_value(t: Seq<TomlTokV>, p: int) -> Option<(TomlDataV, int)>
    decreases t.len() - p, 0int,
{
    if p < 0 || p >= t.len() {
        None
    } else {
        match t[p] {
            TomlTokV::Str(s) => Some((TomlDataV::Str(s), p + 1)),
            TomlTokV::Int(i) => Some((TomlDataV::Int(i), p + 1)),
            TomlTokV::Other => Some((TomlDataV::Other, p + 1)),
            TomlTokV::Array(n) => match dec_items(t, p + 1, n, seq![]) {
                Some((xs, q)) => Some((TomlDataV::Array(xs), q)),
                None => None,
            },
            TomlTokV::Table(n) => match dec_entries(t, p + 1, n, seq![]) {
                Some((es, q)) => Some((TomlDataV::Table(es), q)),
                None => None,
            },
        }
    }
}

/// `n` values from `p`, the last first, before `acc`.
pub open spec fn dec_items(t: Seq<TomlTokV>, p: int, n: nat, acc: Seq<TomlDataV>) -> Option<(Seq<TomlDataV>, int)>
    decreases t.len() - p, 1int,
{
    if p < 0 || p > t.len() {
        None
    } else if n == 0 {
        Some((acc, p))
    } else {
        match dec_value(t, p) {
            Some((v, q)) => if p < q <= t.len() { dec_items(t, q, (n - 1) as nat, seq![v] + acc) } else { None },
            None => None,
        }
    }
}

/// `n` entries from `p`, the last first, before `acc`: each is `Array(2)`,
/// its value, and its key as a string.
pub open spec fn dec_entries(t: Seq<TomlTokV>, p: int, n: nat, acc: Seq<(Seq<char>, TomlDataV)>)
    -> Option<(Seq<(Seq<char>, TomlDataV)>, int)>
    decreases t.len() - p, 1int,
{
    if p < 0 || p > t.len() {
        None
    } else if n == 0 {
        Some((acc, p))
    } else if p == t.len() || t[p] != TomlTokV::Array(2) {
        None
    } else {
        match dec_value(t, p + 1) {
            Some((v, q)) => if p < q < t.len() {
                match t[q] {
                    TomlTokV::Str(k) => dec_entries(t, q + 1, (n - 1) as nat, seq![(k, v)] + acc),
                    _ => None,
                }
            } else {
                None
            },
            None => None,
        }
    }
}

/// The value that the steps `t` write out, all of them.
pub open spec fn toml_doc(t: Seq<TomlTokV>) -> Option<TomlDataV> {
    match dec_value(t, 0) {
        Some((v, q)) => if q == t.len() { Some(v) } else { None },
        None => None,
    }
}

/// The document that the TOML text `text` holds, where it is valid TOML.
pub uninterp spec fn toml_parse(text: Seq<char>) -> Option<TomlDataV>;

/// Calls `toml::from_str` into a `toml::Value` and writes the value out as
/// `TomlTok` steps (see there): strings, integers, arrays, tables (each
/// entry as the pair of its key and value), anything else as `Other`. The
/// contract claims that the text parses exactly when it is valid TOML, and
/// that the steps read back (`toml_doc`) give the document. The text of the
/// error is not stated.
#[verifier::external_body]
pub fn parse_toml(text: &str) -> (r: Result<Vec<TomlTok>, String>)
    ensures
        r is Ok <==> toml_parse(text@) is Some,
        r matches Ok(ts) ==> toml_parse(text@) == toml_doc(toks_view(ts@)),
{
    let mut stack = vec![toml::from_str::<Value>(text).map_err(|e| e.to_string())?];
    let mut out = Vec::new();
    while let Some(x) = stack.pop() {
        out.push(match x {
            Value::String(s) => Str(s),
            Value::Integer(i) => Int(i),
            Value::Array(a) => { let n = a.len(); stack.extend(a); Array(n) }
            Value::Table(m) => { let n = m.len(); stack.extend(m.into_iter().map(|(k, v)| Value::Array(vec![Value::String(k), v]))); Table(n) }
            _ => Other,
        });
    }
    Ok(out)
}

fn dec_value_exec(t: &Vec<TomlTok>, p: usize) -> (r: Option<(TomlData, usize)>)
    requires
        p <= t@.len(),
    ensures
        match dec_value(toks_view(t@), p as int) {
            Some((v, q)) => r matches Some((d, x)) && d@ == v && x == q,
            None => r is None,
        },
        r matches Some((_, x)) ==> p < x <= t@.len(),
    decreases t@.len() - p, 0int,
{
    if p >= t.len() {
        return None;
    }
    match &t[p] {
        TomlTok::Str(s) => Some((TomlData::Str(s.clone()), p + 1)),
        TomlTok::Int(i) => Some((TomlData::Int(*i), p + 1)),
        TomlTok::Other => Some((TomlData::Other, p + 1)),
        TomlTok::Array(n) => match dec_items_exec(t, p + 1, *n) {
            Some((v, q)) => Some((TomlData::Array(v), q)),
            None => None,
        },
        TomlTok::Table(n) => match dec_entries_exec(t, p + 1, *n) {
            Some((v, q)) => Some((TomlData::Table(v), q)),
            None => None,
        },
    }
}

fn dec_items_exec(t: &Vec<TomlTok>, p0: usize, n0: usize) -> (r: Option<(Vec<TomlData>, usize)>)
    requires
        p0 <= t@.len(),
    ensures
        match dec_items(toks_view(t@), p0 as int, n0 as nat, seq![]) {
            Some((xs, q)) => r matches Some((v, x)) && datas_view(v@, v@.len() as int) == xs && x == q,
            None => r is None,
        },
        r matches Some((_, x)) ==> p0 <= x <= t@.len(),
    decreases t@.len() - p0, 1int,
{
    let ghost tv = toks_view(t@);
    let mut acc: Vec<TomlData> = Vec::new();
    let mut p: usize = p0;
    let mut n: usize = n0;
    while n > 0
        invariant
            p0 <= p <= t@.len(),
            tv == toks_view(t@),
            dec_items(tv, p as int, n as nat, datas_view(acc@, acc@.len() as int)) == dec_items(tv, p0 as int, n0 as nat, seq![]),
        decreases n,
    {
        match dec_value_exec(t, p) {
            Some((d, q)) => {
                let ghost before = acc@;
                let ghost dv = d@;
                acc.insert(0, d);
                proof {
                    lemma_datas_view(before, before.len() as int);
                    lemma_datas_view(acc@, acc@.len() as int);
                    assert(datas_view(acc@, acc@.len() as int) =~= seq![dv] + datas_view(before, before.len() as int));
                }
                p = q;
                n = n - 1;
            },
            None => return None,
        }
    }
    Some((acc, p))
}

fn dec_entries_exec(t: &Vec<TomlTok>, p0: usize, n0: usize) -> (r: Option<(Vec<(String, TomlData)>, usize)>)
    requires
        p0 <= t@.len(),
    ensures
        match dec_entries(toks_view(t@), p0 as int, n0 as nat, seq![]) {
            Some((es, q)) => r matches Some((v, x)) && entries_view(v@, v@.len() as int) == es && x == q,
            None => r is None,
        },
        r matches Some((_, x)) ==> p0 <= x <= t@.len(),
    decreases t@.len() - p0, 1int,
{
    let ghost tv = toks_view(t@);
    let mut acc: Vec<(String, TomlData)> = Vec::new();
    let mut p: usize = p0;
    let mut n: usize = n0;
    while n > 0
        invariant
            p0 <= p <= t@.len(),
            tv == toks_view(t@),
            dec_entries(tv, p as int, n as nat, entries_view(acc@, acc@.len() as int))
                == dec_entries(tv, p0 as int, n0 as nat, seq![]),
        decreases n,
    {
        if p >= t.len() {
            return None;
        }
        match &t[p] {
            TomlTok::Array(m) => if *m != 2 {
                return None;
            },
            _ => return None,
        }
        let (d, q) = match dec_value_exec(t, p + 1) {
            Some(x) => x,
            None => return None,
        };
        if q >= t.len() {
            return None;
        }
        let k = match &t[q] {
            TomlTok::Str(k) => k.clone(),
            _ => return None,
        };
        let ghost before = acc@;
        let ghost ev = (k@, d@);
        acc.insert(0, (k, d));
        proof {
            lemma_entries_view(before, before.len() as int);
            lemma_entries_view(acc@, acc@.len() as int);
            assert(entries_view(acc@, acc@.len() as int) =~= seq![ev] + entries_view(before, before.len() as int));
        }
        p = q + 1;
        n = n - 1;
    }
    Some((acc, p))
}

/// The value that the pre-order steps `t` write out (see `toml_doc`).
pub fn decode_toml(t: &Vec<TomlTok>) -> (r: Option<TomlData>)
    ensures
        match toml_doc(toks_view(t@)) {
            Some(v) => r matches Some(d) && d@ == v,
            None => r is None,
        },
{
    match dec_value_exec(t, 0) {
        Some((d, q)) => if q == t.len() { Some(d) } else { None },
        None => None,
    }
}

// ---------------------------------------------------------------------------
// System-call numbers

/// The value of the first entry of `es` from `i` on with key `k`.
pub open spec fn tget(es: Seq<(Seq<char>, TomlDataV)>, k: Seq<char>, i: int) -> Option<TomlDataV>
    decreases es.len() - i,
{
    if i < 0 || i >= es.len() {
        None
    } else if es[i].0 == k {
        Some(es[i].1)
    } else {
        tget(es, k, i + 1)
    }
}

/// The integer entries among the first `n` of a table, in order.
pub open spec fn int_entries(es: Seq<(Seq<char>, TomlDataV)>, n: int) -> Seq<(Seq<char>, i64)>
    decreases n,
{
    if n <= 0 || n > es.len() {
        seq![]
    } else {
        let r = int_entries(es, n - 1);
        match es[n - 1].1 {
            TomlDataV::Int(i) => r.push((es[n - 1].0, i)),
            _ => r,
        }
    }
}

/// The numbers of one syscall entry: the integer entries of its
/// `syscall_num` table (none where it has no such table).
pub open spec fn entry_numbers(f: Seq<(Seq<char>, TomlDataV)>) -> Seq<(Seq<char>, i64)> {
    match tget(f, "syscall_num"@, 0) {
        Some(TomlDataV::Table(m)) => int_entries(m, m.len() as int),
        _ => seq![],
    }
}

/// The named entries among the first `n` of the `syscalls` array: each
/// table with a string `name` gives that name and its numbers.
pub open spec fn sys_entries(items: Seq<TomlDataV>, n: int) -> Seq<(Seq<char>, Seq<(Seq<char>, i64)>)>
    decreases n,
{
    if n <= 0 || n > items.len() {
        seq![]
    } else {
        let r = sys_entries(items, n - 1);
        match items[n - 1] {
            TomlDataV::Table(f) => match tget(f, "name"@, 0) {
                Some(TomlDataV::Str(nm)) => r.push((nm, entry_numbers(f))),
                _ => r,
            },
            _ => r,
        }
    }
}

/// The system calls a bindings document declares, in order: the named
/// entries of its `syscalls` array (none where it has no such array).
pub open spec fn syscall_entries_spec(v: TomlDataV) -> Seq<(Seq<char>, Seq<(Seq<char>, i64)>)> {
    match v {
        TomlDataV::Table(es) => match tget(es, "syscalls"@, 0) {
            Some(TomlDataV::Array(items)) => sys_entries(items, items.len() as int),
            _ => seq![],
        },
        _ => seq![],
    }
}

pub open spec fn nums_view(v: Seq<(String, i64)>) -> Seq<(Seq<char>, i64)> {
    v.map_values(|x: (String, i64)| (x.0@, x.1))
}

pub open spec fn sys_view(v: Seq<(String, Vec<(String, i64)>)>) -> Seq<(Seq<char>, Seq<(Seq<char>, i64)>)> {
    v.map_values(|e: (String, Vec<(String, i64)>)| (e.0@, nums_view(e.1@)))
}

fn find_entry<'a>(es: &'a Vec<(String, TomlData)>, k: &str) -> (r: Option<&'a TomlData>)
    ensures
        match tget(entries_view(es@, es@.len() as int), k@, 0) {
            Some(v) => r matches Some(d) && d@ == v,
            None => r is None,
        },
{
    let ghost ev = entries_view(es@, es@.len() as int);
    proof { lemma_entries_view(es@, es@.len() as int); }
    let mut i: usize = 0;
    while i < es.len()
        invariant
            i <= es@.len(),
            ev == entries_view(es@, es@.len() as int),
            ev.len() == es@.len(),
            forall|j: int| 0 <= j < es@.len() ==> #[trigger] ev[j] == (es@[j].0@, data_view(es@[j].1)),
            tget(ev, k@, i as int) == tget(ev, k@, 0),
        decreases es@.len() - i,
    {
        let c = chars_of(es[i].0.as_str());
        if eq_str(c.as_slice(), k) {
            return Some(&es[i].1);
        }
        i = i + 1;
    }
    None
}

fn entry_numbers_exec(f: &Vec<(String, TomlData)>) -> (r: Vec<(String, i64)>)
    ensures
        nums_view(r@) == entry_numbers(entries_view(f@, f@.len() as int)),
{
    proof { reveal_strlit("syscall_num"); }
    let mut r: Vec<(String, i64)> = Vec::new();
    match find_entry(f, "syscall_num") {
        Some(TomlData::Table(m)) => {
            proof { lemma_entries_view(m@, m@.len() as int); }
            let ghost mv = entries_view(m@, m@.len() as int);
            let mut i: usize = 0;
            while i < m.len()
                invariant
                    i <= m@.len(),
                    mv == entries_view(m@, m@.len() as int),
                    mv.len() == m@.len(),
                    forall|j: int| 0 <= j < m@.len() ==> #[trigger] mv[j] == (m@[j].0@, data_view(m@[j].1)),
                    nums_view(r@) == int_entries(mv, i as int),
                decreases m@.len() - i,
            {
                let ghost before = r@;
                match &m[i].1 {
                    TomlData::Int(n) => {
                        r.push((m[i].0.clone(), *n));
                        assert(nums_view(r@) =~= nums_view(before).push((m@[i as int].0@, *n)));
                    },
                    _ => {},
                }
                i = i + 1;
            }
        },
        _ => {},
    }
    r
}

/// The system calls of a bindings document (see `syscall_entries_spec`).
pub fn syscall_entries(v: &TomlData) -> (r: Vec<(String, Vec<(String, i64)>)>)
    ensures
        sys_view(r@) == syscall_entries_spec(v@),
{
    proof { reveal_strlit("syscalls"); reveal_strlit("name"); }
    let mut r: Vec<(String, Vec<(String, i64)>)> = Vec::new();
    let es = match v {
        TomlData::Table(es) => es,
        _ => return r,
    };
    let items = match find_entry(es, "syscalls") {
        Some(TomlData::Array(items)) => items,
        _ => return r,
    };
    proof { lemma_datas_view(items@, items@.len() as int); }
    let ghost iv = datas_view(items@, items@.len() as int);
    let mut i: usize = 0;
    while i < items.len()
        invariant
            i <= items@.len(),
            iv == datas_view(items@, items@.len() as int),
            iv.len() == items@.len(),
            forall|j: int| 0 <= j < items@.len() ==> #[trigger] iv[j] == data_view(items@[j]),
            sys_view(r@) == sys_entries(iv, i as int),
        decreases items@.len() - i,
    {
        let ghost before = r@;
        match &items[i] {
            TomlData::Table(f) => match find_entry(f, "name") {
                Some(TomlData::Str(nm)) => {
                    let nums = entry_numbers_exec(f);
                    let ghost nv = nums_view(nums@);
                    r.push((nm.clone(), nums));
                    assert(sys_view(r@) =~= sys_view(before).push((nm@, nv)));
                },
                _ => {},
            },
            _ => {},
        }
        i = i + 1;
    }
    r
}

} // verus!
