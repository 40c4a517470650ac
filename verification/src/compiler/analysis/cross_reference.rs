//! Cross-checks between a program and its board configuration: every
//! address a variable or trigger uses must be a memory region of the
//! configuration, and variables sharing an address must say which bits
//! they use.

use vstd::prelude::*;
use crate::text::{owned, chars_of, hex_literal, to_lowercase, lowercase, joined, string_views, join_strings};
use crate::table::keys_of;
use crate::compiler::ast::{HardwareConfig, Program, TopLevel};
use crate::compiler::analysis::address_space::address_text;

verus! {

#[derive(Debug, Clone, Copy, PartialEq, Eq, Structural)]
pub enum CrossRefErrorType {
    AddressNotInHardwareConfig,
    TriggerAddressNotInHardwareConfig,
    ImplicitOverlap,
    AddressRangeMismatch,
}

#[derive(Debug, Clone)]
pub struct CrossRefError {
    pub variable: String,
    pub address: String,
    pub error_type: CrossRefErrorType,
    pub message: String,
}

pub struct CrossRefErrorV {
    pub variable: Seq<char>,
    pub address: Seq<char>,
    pub error_type: CrossRefErrorType,
    pub message: Seq<char>,
}

impl View for CrossRefError {
    type V = CrossRefErrorV;

    open spec fn view(&self) -> CrossRefErrorV {
        CrossRefErrorV { variable: self.variable@, address: self.address@, error_type: self.error_type, message: self.message@ }
    }
}

pub open spec fn cross_views(v: Seq<CrossRefError>) -> Seq<CrossRefErrorV> {
    v.map_values(|e: CrossRefError| e@)
}

impl CrossRefError {
    /// The message of the error.
    pub fn to_string(&self) -> (s: String)
        ensures
            s@ == self.message@,
    {
        self.message.clone()
    }
}

/// Whether the configuration has a memory region at an address text, as
/// written or in lower case.
pub open spec fn has_region(keys: Seq<Seq<char>>, a: Seq<char>) -> bool {
    keys.contains(a) || keys.contains(lowercase(a))
}

/// The error of one item: a variable or trigger whose address the
/// configuration does not have.
pub open spec fn item_cross_error(keys: Seq<Seq<char>>, item: TopLevel) -> Option<CrossRefErrorV> {
    match item {
        TopLevel::StateDecl(d) => match d.address {
            Some(a) => if has_region(keys, address_text(a)) {
                None
            } else {
                Some(CrossRefErrorV {
                    variable: d.name@,
                    address: address_text(a),
                    error_type: CrossRefErrorType::AddressNotInHardwareConfig,
                    message: "Variable '"@ + d.name@ + "' uses address "@ + address_text(a)
                        + " which is not defined in hardware.toml"@,
                })
            },
            None => None,
        },
        TopLevel::Trigger(t) => if has_region(keys, address_text(t.address)) {
            None
        } else {
            Some(CrossRefErrorV {
                variable: t.name@,
                address: address_text(t.address),
                error_type: CrossRefErrorType::TriggerAddressNotInHardwareConfig,
                message: "Trigger '"@ + t.name@ + "' address not defined in hardware.toml"@,
            })
        },
        _ => None,
    }
}

/// The errors of the first `n` items, in order.
pub open spec fn cross_errors(keys: Seq<Seq<char>>, items: Seq<TopLevel>, n: int) -> Seq<CrossRefErrorV>
    decreases n,
{
    if n <= 0 {
        seq![]
    } else {
        let rest = cross_errors(keys, items, n - 1);
        match item_cross_error(keys, items[n - 1]) {
            Some(e) => rest.push(e),
            None => rest,
        }
    }
}

/// One declaration at an address: its name and whether it gives a bit
/// range.
pub open spec fn placed(items: Seq<TopLevel>, n: int) -> Seq<(u64, Seq<char>, bool)>
    decreases n,
{
    if n <= 0 {
        seq![]
    } else {
        let rest = placed(items, n - 1);
        match items[n - 1] {
            TopLevel::StateDecl(d) => match d.address {
                Some(a) => rest.push((a, d.name@, d.bit_range is Some)),
                None => rest,
            },
            _ => rest,
        }
    }
}

/// Where address `a` is among the groups.
pub open spec fn group_index(g: Seq<(u64, Seq<Seq<char>>, bool)>, a: u64) -> Option<int> {
    crate::seqs::first_index(g.len(), group_pred(g, a))
}

pub open spec fn group_pred(g: Seq<(u64, Seq<Seq<char>>, bool)>, a: u64) -> spec_fn(int) -> bool {
    |i: int| g[i].0 == a
}

/// The declarations grouped by address, in the order in which each address
/// first occurs; each group keeps its names in order and whether its first
/// declaration gives a bit range.
pub open spec fn address_groups(p: Seq<(u64, Seq<char>, bool)>) -> Seq<(u64, Seq<Seq<char>>, bool)>
    decreases p.len(),
{
    if p.len() == 0 {
        seq![]
    } else {
        let g = address_groups(p.drop_last());
        let (a, n, r) = p.last();
        match group_index(g, a) {
            Some(j) => g.update(j, (a, g[j].1.push(n), g[j].2)),
            None => g.push((a, seq![n], r)),
        }
    }
}

/// The error of a group: more than one declaration, the first without a
/// bit range.
pub open spec fn overlap_errors(g: Seq<(u64, Seq<Seq<char>>, bool)>) -> Seq<CrossRefErrorV>
    decreases g.len(),
{
    if g.len() == 0 {
        seq![]
    } else {
        let rest = overlap_errors(g.drop_last());
        let (a, names, ranged) = g.last();
        if names.len() > 1 && !ranged {
            rest.push(CrossRefErrorV {
                variable: joined(names, ", "@),
                address: address_text(a),
                error_type: CrossRefErrorType::ImplicitOverlap,
                message: "Multiple variables at address "@ + address_text(a)
                    + " without explicit bit ranges. Specify /bit ranges to avoid conflicts."@,
            })
        } else {
            rest
        }
    }
}

/// Checks a program against the memory regions of its board configuration.
pub struct CrossReferenceValidator {
    memory_addresses: Vec<String>,
}

impl CrossReferenceValidator {
    /// The address texts of the memory regions.
    pub closed spec fn addresses(&self) -> Seq<Seq<char>> {
        string_views(self.memory_addresses@)
    }

    pub fn new(hw_config: &HardwareConfig) -> (r: Self)
        ensures
            r.addresses() == keys_of(hw_config.memory@),
    {
        let mut v: Vec<String> = Vec::new();
        let mut i: usize = 0;
        while i < hw_config.memory.len()
            invariant
                i <= hw_config.memory@.len(),
                string_views(v@) == keys_of(hw_config.memory@).subrange(0, i as int),
            decreases hw_config.memory@.len() - i,
        {
            let ghost before = v@;
            let k = hw_config.memory[i].0.clone();
            v.push(k);
            assert(string_views(v@) =~= string_views(before).push(k@));
            assert(string_views(v@) =~= keys_of(hw_config.memory@).subrange(0, i + 1));
            i = i + 1;
        }
        assert(keys_of(hw_config.memory@).subrange(0, hw_config.memory@.len() as int) =~= keys_of(hw_config.memory@));
        CrossReferenceValidator { memory_addresses: v }
    }

    fn has_address(&self, a: &str) -> (r: bool)
        ensures
            r == self.addresses().contains(a@),
    {
        let want = chars_of(a);
        let mut i: usize = 0;
        while i < self.memory_addresses.len()
            invariant
                i <= self.memory_addresses@.len(),
                want@ == a@,
                forall|j: int| 0 <= j < i ==> self.addresses()[j] != a@,
            decreases self.memory_addresses@.len() - i,
        {
            let k = chars_of(self.memory_addresses[i].as_str());
            if crate::text::chars_eq(k.as_slice(), want.as_slice()) {
                assert(self.addresses()[i as int] == a@);
                return true;
            }
            i = i + 1;
        }
        false
    }

    fn has_region_exec(&self, a: &str) -> (r: bool)
        ensures
            r == has_region(self.addresses(), a@),
    {
        if self.has_address(a) {
            true
        } else {
            let lower = to_lowercase(a);
            self.has_address(lower.as_str())
        }
    }

    /// The variables and triggers whose address (`0x` and eight upper-case
    /// hexadecimal digits, or the same in lower case) is no memory region
    /// of the configuration, in program order.
    pub fn validate(&self, program: &Program) -> (r: Vec<CrossRefError>)
        ensures
            cross_views(r@) == cross_errors(self.addresses(), program.items@, program.items@.len() as int),
    {
        let items = &program.items;
        let mut out: Vec<CrossRefError> = Vec::new();
        let mut i: usize = 0;
        assert(cross_views(out@) =~= cross_errors(self.addresses(), items@, 0));
        while i < items.len()
            invariant
                i <= items@.len(),
                items@ == program.items@,
                cross_views(out@) == cross_errors(self.addresses(), items@, i as int),
            decreases items@.len() - i,
        {
            let ghost before = out@;
            match &items[i] {
                TopLevel::StateDecl(decl) => match decl.address {
                    Some(a) => {
                        let addr_str = hex_literal(a, true, 8);
                        if !self.has_region_exec(addr_str.as_str()) {
                            let mut message = owned("Variable '");
                            message.append(decl.name.as_str());
                            message.append("' uses address ");
                            message.append(addr_str.as_str());
                            message.append(" which is not defined in hardware.toml");
                            let e = CrossRefError {
                                variable: decl.name.clone(),
                                address: addr_str,
                                error_type: CrossRefErrorType::AddressNotInHardwareConfig,
                                message,
                            };
                            out.push(e);
                            assert(cross_views(out@) =~= cross_views(before).push(e@));
                        }
                    }
                    None => {}
                },
                TopLevel::Trigger(trg) => {
                    let addr_str = hex_literal(trg.address, true, 8);
                    if !self.has_region_exec(addr_str.as_str()) {
                        let mut message = owned("Trigger '");
                        message.append(trg.name.as_str());
                        message.append("' address not defined in hardware.toml");
                        let e = CrossRefError {
                            variable: trg.name.clone(),
                            address: addr_str,
                            error_type: CrossRefErrorType::TriggerAddressNotInHardwareConfig,
                            message,
                        };
                        out.push(e);
                        assert(cross_views(out@) =~= cross_views(before).push(e@));
                    }
                }
                _ => {}
            }
            i = i + 1;
        }
        out
    }

    /// Variables that share an address, the first of them without a bit
    /// range: one error for each such address, in the order in which the
    /// addresses first occur, naming all its variables.
    pub fn check_address_consistency(&self, program: &Program) -> (r: Vec<CrossRefError>)
        ensures
            cross_views(r@) == overlap_errors(address_groups(placed(program.items@, program.items@.len() as int))),
    {
        let items = &program.items;
        let mut groups: Vec<(u64, Vec<String>, bool)> = Vec::new();
        let mut i: usize = 0;
        assert(group_views(groups@) =~= address_groups(placed(items@, 0)));
        while i < items.len()
            invariant
                i <= items@.len(),
                items@ == program.items@,
                group_views(groups@) == address_groups(placed(items@, i as int)),
            decreases items@.len() - i,
        {
            match &items[i] {
                TopLevel::StateDecl(decl) => match decl.address {
                    Some(a) => {
                        let ghost p = placed(items@, i as int);
                        let ghost entry = (a, decl.name@, decl.bit_range is Some);
                        assert(placed(items@, i + 1) == p.push(entry));
                        assert(p.push(entry).drop_last() =~= p);
                        add_to_group(&mut groups, a, decl.name.clone(), decl.bit_range.is_some());
                    }
                    None => {}
                },
                _ => {}
            }
            i = i + 1;
        }
        let ghost gv = group_views(groups@);
        let mut out: Vec<CrossRefError> = Vec::new();
        let mut k: usize = 0;
        assert(cross_views(out@) =~= overlap_errors(gv.subrange(0, 0)));
        while k < groups.len()
            invariant
                k <= groups@.len(),
                gv == group_views(groups@),
                cross_views(out@) == overlap_errors(gv.subrange(0, k as int)),
            decreases groups@.len() - k,
        {
            assert(gv.subrange(0, k + 1).drop_last() =~= gv.subrange(0, k as int));
            let g = &groups[k];
            if g.1.len() > 1 && !g.2 {
                let address = hex_literal(g.0, true, 8);
                let mut message = owned("Multiple variables at address ");
                message.append(address.as_str());
                message.append(" without explicit bit ranges. Specify /bit ranges to avoid conflicts.");
                let e = CrossRefError {
                    variable: join_strings(&g.1, ", "),
                    address,
                    error_type: CrossRefErrorType::ImplicitOverlap,
                    message,
                };
                let ghost before = out@;
                out.push(e);
                assert(cross_views(out@) =~= cross_views(before).push(e@));
            }
            k = k + 1;
        }
        assert(gv.subrange(0, gv.len() as int) =~= gv);
        out
    }
}

pub open spec fn group_views(g: Seq<(u64, Vec<String>, bool)>) -> Seq<(u64, Seq<Seq<char>>, bool)> {
    g.map_values(|e: (u64, Vec<String>, bool)| (e.0, string_views(e.1@), e.2))
}

fn add_to_group(groups: &mut Vec<(u64, Vec<String>, bool)>, a: u64, name: String, ranged: bool)
    ensures
        group_views(final(groups)@) == ({
            let g = group_views(old(groups)@);
            match group_index(g, a) {
                Some(j) => g.update(j, (a, g[j].1.push(name@), g[j].2)),
                None => g.push((a, seq![name@], ranged)),
            }
        }),
{
    let ghost g = group_views(groups@);
    let ghost pr = group_pred(g, a);
    let mut j: usize = 0;
    while j < groups.len()
        invariant
            j <= groups@.len(),
            groups@ == old(groups)@,
            g == group_views(groups@),
            pr == group_pred(g, a),
            forall|q: int| 0 <= q < j ==> !#[trigger] pr(q),
        decreases groups@.len() - j,
    {
        if groups[j].0 == a {
            proof {
                crate::seqs::lemma_first_index_is(g.len(), pr, j as int);
                assert(group_index(g, a) == Some(j as int));
            }
            let (ga, mut names, gr) = groups.remove(j);
            let ghost nb = names@;
            names.push(name);
            assert(string_views(names@) =~= string_views(nb).push(name@));
            groups.insert(j, (ga, names, gr));
            assert(group_views(groups@) =~= g.update(j as int, (a, g[j as int].1.push(name@), g[j as int].2)));
            return;
        }
        j = j + 1;
    }
    proof {
        crate::seqs::lemma_first_index_none(g.len(), pr);
        assert(group_index(g, a) == None::<int>);
    }
    let mut v: Vec<String> = Vec::new();
    v.push(name);
    let ghost before = groups@;
    groups.push((a, v, ranged));
    assert(string_views(v@) =~= seq![name@]);
    assert(group_views(groups@) =~= g.push((a, seq![name@], ranged)));
}

} // verus!
