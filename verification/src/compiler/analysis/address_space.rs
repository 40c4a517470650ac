//! Address spaces: which declared addresses the CPU can reach (DDR4 and
//! memory-mapped I/O) and which lie in FPGA-internal BRAM/URAM, and the
//! check that no transaction writes a variable placed in FPGA-internal
//! memory.

use vstd::prelude::*;
use crate::text::{owned, chars_of, hex_literal, hex_padded, radix16, parse_hex_u64, strip_all, strip_all_exec};
use crate::table::{keys_of, key_index, table_map, table_insert, lemma_table_insert, lemma_key_index, find_key};
use crate::compiler::ast::{HardwareConfig, MemoryMapping, Program, TopLevel, Statement, Expr, ExprV};

verus! {

/// Where an address lies.
#[derive(Debug, Clone, Copy, PartialEq, Eq, Structural)]
pub enum AddressSpace {
    /// Main memory, reachable by the CPU.
    Ddr4,
    /// A memory-mapped register range, reachable by the CPU over the bus.
    Mmio(u64),
    /// FPGA-internal BRAM/URAM, not reachable by the CPU.
    FpgaInternal,
    Unknown,
}

/// The value of an address text such as `0x40A80000`: hexadecimal after any
/// `0x` and `0X` prefixes; 0 when it is no hexadecimal numeral.
pub open spec fn address_value(s: Seq<char>) -> u64 {
    match radix16(strip_all(strip_all(s, "0x"@), "0X"@)) {
        Some(v) => v,
        None => 0,
    }
}

/// The address space of an address.
pub open spec fn space_of(addr: u64) -> AddressSpace {
    if 0x40A80000 <= addr && addr < 0x50000000 {
        AddressSpace::FpgaInternal
    } else if 0x40B00000 <= addr && addr < 0x5000000 {
        AddressSpace::FpgaInternal
    } else if (0x4000A000 <= addr && addr <= 0x4000AFFF) || (0x8000A000 <= addr && addr <= 0x8000AFFF) {
        AddressSpace::Mmio(addr)
    } else if (0x40000000 <= addr && addr <= 0x4FFFFFFF) || (0x80000000 <= addr && addr <= 0x8FFFFFFF) {
        AddressSpace::Mmio(addr)
    } else {
        AddressSpace::Ddr4
    }
}

/// The address spaces of the memory regions of a configuration, by address
/// text.
pub open spec fn address_map(keys: Seq<Seq<char>>) -> Map<Seq<char>, AddressSpace> {
    Map::new(|k: Seq<char>| keys.contains(k), |k: Seq<char>| space_of(address_value(k)))
}

/// Classifies the addresses of a board configuration.
pub struct AddressSpaceAnalyzer {
    address_spaces: Vec<(String, AddressSpace)>,
}

impl View for AddressSpaceAnalyzer {
    type V = Map<Seq<char>, AddressSpace>;

    closed spec fn view(&self) -> Map<Seq<char>, AddressSpace> {
        table_map(self.address_spaces@)
    }
}

/// What `classify` gives for an address text.
pub open spec fn classify_in(m: Map<Seq<char>, AddressSpace>, a: Seq<char>) -> AddressSpace {
    if m.dom().contains(a) { m[a] } else { AddressSpace::Unknown }
}

/// Whether the CPU can reach an address space; an unknown one is taken as
/// reachable.
pub open spec fn cpu_reaches(s: AddressSpace) -> bool {
    s !is FpgaInternal
}

/// `format!("0x{:08X}", addr)`.
pub open spec fn address_text(addr: u64) -> Seq<char> {
    seq!['0', 'x'] + hex_padded(addr as nat, true, 8)
}

impl AddressSpaceAnalyzer {
    /// Reads the address as hexadecimal, after any `0x` and then any `0X`
    /// prefixes; 0 when it cannot be read.
    pub fn parse_address(addr_str: &str) -> (r: u64)
        ensures
            r == address_value(addr_str@),
    {
        let v = chars_of(addr_str);
        let clean = strip_all_exec(strip_all_exec(v.as_slice(), "0x"), "0X");
        match parse_hex_u64(clean) {
            Some(a) => a,
            None => 0,
        }
    }

    /// The address space of an address: FPGA-internal from `0x40A80000` up
    /// to `0x50000000`; memory-mapped I/O in `0x40000000..=0x4FFFFFFF` and
    /// `0x80000000..=0x8FFFFFFF`; DDR4 otherwise.
    pub fn classify_address(addr: u64, mem_map: &MemoryMapping) -> (r: AddressSpace)
        ensures
            r == space_of(addr),
    {
        if addr >= 0x40A80000 && addr < 0x50000000 {
            return AddressSpace::FpgaInternal;
        }
        if addr >= 0x40B00000 && addr < 0x5000000 {
            return AddressSpace::FpgaInternal;
        }
        if (0x4000A000 <= addr && addr <= 0x4000AFFF) || (0x8000A000 <= addr && addr <= 0x8000AFFF) {
            return AddressSpace::Mmio(addr);
        }
        if (0x40000000 <= addr && addr <= 0x4FFFFFFF) || (0x80000000 <= addr && addr <= 0x8FFFFFFF) {
            return AddressSpace::Mmio(addr);
        }
        AddressSpace::Ddr4
    }

    /// An analyzer for the memory regions of `config`; without a
    /// configuration it knows no address.
    pub fn new(config: Option<&HardwareConfig>) -> (r: Self)
        ensures
            r@ == match config {
                Some(c) => address_map(keys_of(c.memory@)),
                None => Map::<Seq<char>, AddressSpace>::empty(),
            },
    {
        let mut table: Vec<(String, AddressSpace)> = Vec::new();
        match config {
            None => {
                assert(table_map(table@) =~= Map::<Seq<char>, AddressSpace>::empty());
            }
            Some(c) => {
                let mut i: usize = 0;
                assert(table_map(table@) =~= address_map(keys_of(c.memory@).subrange(0, 0)));
                while i < c.memory.len()
                    invariant
                        i <= c.memory@.len(),
                        table_map(table@) == address_map(keys_of(c.memory@).subrange(0, i as int)),
                    decreases c.memory@.len() - i,
                {
                    let key = &c.memory[i].0;
                    let addr = Self::parse_address(key.as_str());
                    let space = Self::classify_address(addr, &c.memory[i].1);
                    let ghost before = table@;
                    let k = key.clone();
                    match find_key(&table, key.as_str()) {
                        Some(j) => {
                            let kk = table[j].0.clone();
                            table.set(j, (kk, space));
                        }
                        None => {
                            table.push((k, space));
                        }
                    }
                    proof {
                        lemma_table_insert(before, k, space);
                        assert(table@ == table_insert(before, k, space));
                        let ks = keys_of(c.memory@);
                        let pre = ks.subrange(0, i as int);
                        assert(ks.subrange(0, i + 1) =~= pre.push(k@));
                        assert(k@ == key@);
                        assert forall|x: Seq<char>| #![auto] pre.push(k@).contains(x) <==> (pre.contains(x) || x == k@) by {
                            vstd::seq_lib::lemma_seq_contains_after_push(pre, k@, x);
                        }
                        assert(space == space_of(address_value(k@)));
                        assert(table_map(table@) == table_map(before).insert(k@, space));
                        assert(table_map(before) == address_map(pre));
                        let lhs = table_map(table@);
                        let rhs = address_map(pre.push(k@));
                        assert forall|x: Seq<char>| #[trigger] lhs.dom().contains(x) <==> rhs.dom().contains(x) by {
                            assert(pre.push(k@).contains(x) <==> (pre.contains(x) || x == k@));
                        }
                        assert forall|x: Seq<char>| #[trigger] lhs.dom().contains(x) implies lhs[x] == rhs[x] by {
                            assert(pre.push(k@).contains(x) <==> (pre.contains(x) || x == k@));
                        }
                        assert(lhs =~= rhs);
                        assert(table_map(table@) =~= address_map(ks.subrange(0, i + 1)));
                    }
                    i = i + 1;
                }
                assert(keys_of(c.memory@).subrange(0, c.memory@.len() as int) =~= keys_of(c.memory@));
            }
        }
        AddressSpaceAnalyzer { address_spaces: table }
    }

    /// The address space of an address text of the configuration; `Unknown`
    /// for any other text.
    pub fn classify(&self, addr_str: &str) -> (r: AddressSpace)
        ensures
            r == classify_in(self@, addr_str@),
    {
        match find_key(&self.address_spaces, addr_str) {
            Some(i) => {
                proof { lemma_key_index(keys_of(self.address_spaces@), addr_str@); }
                self.address_spaces[i].1
            }
            None => AddressSpace::Unknown,
        }
    }

    /// Whether the CPU can reach an address: all but FPGA-internal ones.
    pub fn is_cpu_accessible(&self, addr_str: &str) -> (r: bool)
        ensures
            r == cpu_reaches(classify_in(self@, addr_str@)),
    {
        match self.classify(addr_str) {
            AddressSpace::Ddr4 => true,
            AddressSpace::Mmio(_) => true,
            AddressSpace::FpgaInternal => false,
            AddressSpace::Unknown => true,
        }
    }

    /// Whether an address lies in FPGA-internal memory.
    pub fn is_fpga_internal(&self, addr_str: &str) -> (r: bool)
        ensures
            r == (classify_in(self@, addr_str@) is FpgaInternal),
    {
        match self.classify(addr_str) {
            AddressSpace::FpgaInternal => true,
            _ => false,
        }
    }
}

// ---------------------------------------------------------------------------
// Validation

/// A variable placed in FPGA-internal memory and written by a transaction.
#[derive(Debug, Clone)]
pub struct AddressValidationError {
    pub variable: String,
    pub address: String,
    pub message: String,
}

pub struct AddressValidationErrorV {
    pub variable: Seq<char>,
    pub address: Seq<char>,
    pub message: Seq<char>,
}

impl View for AddressValidationError {
    type V = AddressValidationErrorV;

    open spec fn view(&self) -> AddressValidationErrorV {
        AddressValidationErrorV { variable: self.variable@, address: self.address@, message: self.message@ }
    }
}

pub open spec fn error_views(v: Seq<AddressValidationError>) -> Seq<AddressValidationErrorV> {
    v.map_values(|e: AddressValidationError| e@)
}

/// The error for variable `name` at address text `addr`.
pub open spec fn fpga_write_error(name: Seq<char>, addr: Seq<char>) -> AddressValidationErrorV {
    AddressValidationErrorV {
        variable: name,
        address: addr,
        message: "Variable '"@ + name + "' at address "@ + addr
            + " is in FPGA-internal memory. CPU cannot directly access FPGA BRAM/URAM at 0x40A80000+. Use AXI mailbox transactions to transfer data."@,
    }
}

/// Whether a statement assigns to the variable `name` itself.
pub open spec fn assigns(s: Statement, name: Seq<char>) -> bool {
    match s {
        Statement::Assignment { lhs, .. } => lhs@ matches ExprV::Identifier(n) && n == name,
        _ => false,
    }
}

/// How many statements of a body assign to `name`.
pub open spec fn body_writes(body: Seq<Statement>, name: Seq<char>) -> nat
    decreases body.len(),
{
    if body.len() == 0 {
        0
    } else {
        body_writes(body.drop_last(), name) + if assigns(body.last(), name) { 1nat } else { 0nat }
    }
}

/// How many statements of the transactions among `items` assign to `name`.
pub open spec fn program_writes(items: Seq<TopLevel>, name: Seq<char>) -> nat
    decreases items.len(),
{
    if items.len() == 0 {
        0
    } else {
        program_writes(items.drop_last(), name) + match items.last() {
            TopLevel::Transaction(t) => body_writes(t.body@, name),
            _ => 0nat,
        }
    }
}

/// The errors of one item of a program: for a variable at an FPGA-internal
/// address, one for each statement of a transaction that assigns to it.
pub open spec fn item_errors(m: Map<Seq<char>, AddressSpace>, item: TopLevel, items: Seq<TopLevel>) -> Seq<AddressValidationErrorV> {
    match item {
        TopLevel::StateDecl(d) => match d.address {
            Some(a) => if classify_in(m, address_text(a)) is FpgaInternal {
                Seq::new(program_writes(items, d.name@), |i: int| fpga_write_error(d.name@, address_text(a)))
            } else {
                seq![]
            },
            None => seq![],
        },
        _ => seq![],
    }
}

/// The errors of the first `n` items.
pub open spec fn program_errors(m: Map<Seq<char>, AddressSpace>, items: Seq<TopLevel>, n: int) -> Seq<AddressValidationErrorV>
    decreases n,
{
    if n <= 0 {
        seq![]
    } else {
        program_errors(m, items, n - 1) + item_errors(m, items[n - 1], items)
    }
}

fn names_var(e: &Expr, name: &str) -> (r: bool)
    ensures
        r == (e@ matches ExprV::Identifier(n) && n == name@),
{
    match e {
        Expr::Identifier(n) => {
            let a = chars_of(n.as_str());
            let b = chars_of(name);
            crate::text::chars_eq(a.as_slice(), b.as_slice())
        }
        _ => false,
    }
}

impl AddressValidationError {
    /// `Address violation for 'VARIABLE' at ADDRESS: MESSAGE`.
    pub fn to_string(&self) -> (s: String)
        ensures
            s@ == "Address violation for '"@ + self.variable@ + "' at "@ + self.address@ + ": "@ + self.message@,
    {
        let mut s = owned("Address violation for '");
        s.append(self.variable.as_str());
        s.append("' at ");
        s.append(self.address.as_str());
        s.append(": ");
        s.append(self.message.as_str());
        s
    }
}

fn push_write_errors(out: &mut Vec<AddressValidationError>, name: &str, addr: &str, body: &Vec<Statement>)
    ensures
        error_views(final(out)@) == error_views(old(out)@)
            + Seq::new(body_writes(body@, name@), |i: int| fpga_write_error(name@, addr@)),
{
    let ghost start = error_views(out@);
    let mut j: usize = 0;
    assert(error_views(out@) =~= start + Seq::new(body_writes(body@.subrange(0, 0), name@), |i: int| fpga_write_error(name@, addr@)));
    while j < body.len()
        invariant
            j <= body@.len(),
            error_views(out@) == start + Seq::new(body_writes(body@.subrange(0, j as int), name@), |i: int| fpga_write_error(name@, addr@)),
        decreases body@.len() - j,
    {
        let hit = match &body[j] {
            Statement::Assignment { lhs, .. } => names_var(lhs, name),
            _ => false,
        };
        let ghost before = out@;
        proof {
            assert(body@.subrange(0, j + 1).drop_last() =~= body@.subrange(0, j as int));
            assert(body@.subrange(0, j + 1).last() == body@[j as int]);
        }
        if hit {
            let mut message = owned("Variable '");
            message.append(name);
            message.append("' at address ");
            message.append(addr);
            message.append(" is in FPGA-internal memory. CPU cannot directly access FPGA BRAM/URAM at 0x40A80000+. Use AXI mailbox transactions to transfer data.");
            let e = AddressValidationError { variable: owned(name), address: owned(addr), message };
            out.push(e);
            assert(error_views(out@) =~= error_views(before).push(e@));
            assert(e@ == fpga_write_error(name@, addr@));
        }
        assert(error_views(out@) =~= start + Seq::new(body_writes(body@.subrange(0, j + 1), name@), |i: int| fpga_write_error(name@, addr@)));
        j = j + 1;
    }
    assert(body@.subrange(0, body@.len() as int) =~= body@);
}

impl AddressSpaceAnalyzer {
    /// The variables placed in FPGA-internal memory that a transaction
    /// writes: one error for each assignment to such a variable, by
    /// declaration, then by transaction and statement.
    pub fn validate_program(&self, program: &Program) -> (r: Vec<AddressValidationError>)
        ensures
            error_views(r@) == program_errors(self@, program.items@, program.items@.len() as int),
    {
        let items = &program.items;
        let mut out: Vec<AddressValidationError> = Vec::new();
        let mut i: usize = 0;
        assert(error_views(out@) =~= program_errors(self@, items@, 0));
        while i < items.len()
            invariant
                i <= items@.len(),
                error_views(out@) == program_errors(self@, items@, i as int),
            decreases items@.len() - i,
        {
            let ghost before = error_views(out@);
            match &items[i] {
                TopLevel::StateDecl(decl) => match decl.address {
                    Some(a) => {
                        let addr_str = hex_literal(a, true, 8);
                        if self.is_fpga_internal(addr_str.as_str()) {
                            let mut k: usize = 0;
                            assert(error_views(out@) =~= before + Seq::new(program_writes(items@.subrange(0, 0), decl.name@),
                                |q: int| fpga_write_error(decl.name@, addr_str@)));
                            while k < items.len()
                                invariant
                                    k <= items@.len(),
                                    error_views(out@) == before + Seq::new(program_writes(items@.subrange(0, k as int), decl.name@),
                                        |q: int| fpga_write_error(decl.name@, addr_str@)),
                                decreases items@.len() - k,
                            {
                                let ghost mid = error_views(out@);
                                proof {
                                    assert(items@.subrange(0, k + 1).drop_last() =~= items@.subrange(0, k as int));
                                    assert(items@.subrange(0, k + 1).last() == items@[k as int]);
                                }
                                match &items[k] {
                                    TopLevel::Transaction(txn) => {
                                        push_write_errors(&mut out, decl.name.as_str(), addr_str.as_str(), &txn.body);
                                    }
                                    _ => {}
                                }
                                assert(error_views(out@) =~= before + Seq::new(program_writes(items@.subrange(0, k + 1), decl.name@),
                                    |q: int| fpga_write_error(decl.name@, addr_str@)));
                                k = k + 1;
                            }
                            assert(items@.subrange(0, items@.len() as int) =~= items@);
                        }
                    }
                    None => {}
                },
                _ => {}
            }
            assert(error_views(out@) =~= program_errors(self@, items@, i + 1));
            i = i + 1;
        }
        out
    }
}

} // verus!
