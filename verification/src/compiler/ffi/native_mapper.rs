//! The native mapper: lays foreign-call arguments out in a byte buffer by a
//! memory layout, and reads results back out of one.
//!
//! Integers and floats are written in the byte order of their field (else
//! of the layout); `Native` is the byte order of the machine, which a
//! caller learns from `native_is_little`. An `address` field must name an
//! address inside the buffer, whose start is the buffer's place in memory.

use vstd::prelude::*;
use crate::text::{owned, push_decimal, decimal, push_hex, hex};
use crate::compiler::ffi::types::{Endian, FfiValue, FieldDescriptor, MemoryLayout};

verus! {

// ---------------------------------------------------------------------------
// Values as mathematical values

pub enum FfiValueV {
    Int(i64),
    Float(u64),
    Bool(bool),
    String(Seq<char>),
    Data(Seq<u8>),
    List(Seq<FfiValueV>),
    Struct(Seq<char>, Seq<(Seq<char>, FfiValueV)>),
    Variant(Seq<char>, Seq<char>, Seq<(Seq<char>, FfiValueV)>),
    Void,
}

pub open spec fn value_view(v: FfiValue) -> FfiValueV
    decreases v,
{
    match v {
        FfiValue::Int(n) => FfiValueV::Int(n),
        FfiValue::Float(b) => FfiValueV::Float(b),
        FfiValue::Bool(b) => FfiValueV::Bool(b),
        FfiValue::String(s) => FfiValueV::String(s@),
        FfiValue::Data(d) => FfiValueV::Data(d@),
        FfiValue::List(items) => FfiValueV::List(values_view(items@, items@.len() as int)),
        FfiValue::Struct(n, fs) => FfiValueV::Struct(n@, named_view(fs@, fs@.len() as int)),
        FfiValue::Variant(t, n, fs) => FfiValueV::Variant(t@, n@, named_view(fs@, fs@.len() as int)),
        FfiValue::Void => FfiValueV::Void,
    }
}

pub open spec fn values_view(s: Seq<FfiValue>, n: int) -> Seq<FfiValueV>
    decreases s, n,
{
    if n <= 0 || n > s.len() {
        seq![]
    } else {
        values_view(s, n - 1).push(value_view(s[n - 1]))
    }
}

pub open spec fn named_view(s: Seq<(String, FfiValue)>, n: int) -> Seq<(Seq<char>, FfiValueV)>
    decreases s, n,
{
    if n <= 0 || n > s.len() {
        seq![]
    } else {
        named_view(s, n - 1).push((s[n - 1].0@, value_view(s[n - 1].1)))
    }
}

/// What `{:?}` writes for a value.
pub uninterp spec fn value_debug(v: FfiValueV) -> Seq<char>;

/// Formats a value with `{:?}`, its derived `Debug` form; the text is a
/// fixed function of the value, which the contract only names.
#[verifier::external_body]
fn debug_value(v: &FfiValue) -> (s: String)
    ensures
        s@ == value_debug(value_view(*v)),
{
    format!("{:?}", v)
}

/// The UTF-8 encoding of a string.
pub open spec fn utf8(s: Seq<char>) -> Seq<u8> {
    vstd::utf8::encode_utf8(s)
}

/// Calls `u16::from_ne_bytes`: whether the machine stores the low byte of
/// a number first. This depends on the machine, so nothing is promised.
#[verifier::external_body]
pub fn native_is_little() -> (b: bool) {
    u16::from_ne_bytes([1, 0]) == 1
}

/// Calls `<[u8]>::as_ptr`: where the buffer starts in memory. The address
/// depends on the run; all that is promised is that the buffer does not
/// wrap around the end of the address space, as no Rust object does.
#[verifier::external_body]
pub fn buffer_address(buffer: &[u8]) -> (a: usize)
    ensures
        a + buffer@.len() <= usize::MAX,
{
    buffer.as_ptr() as usize
}

// ---------------------------------------------------------------------------
// Byte orders

/// The eight bytes of `v`, lowest first.
pub open spec fn le_bytes(v: u64) -> Seq<u8> {
    seq![v as u8, (v >> 8u64) as u8, (v >> 16u64) as u8, (v >> 24u64) as u8,
        (v >> 32u64) as u8, (v >> 40u64) as u8, (v >> 48u64) as u8, (v >> 56u64) as u8]
}

/// The eight bytes of `v`, highest first.
pub open spec fn be_bytes(v: u64) -> Seq<u8> {
    seq![(v >> 56u64) as u8, (v >> 48u64) as u8, (v >> 40u64) as u8, (v >> 32u64) as u8,
        (v >> 24u64) as u8, (v >> 16u64) as u8, (v >> 8u64) as u8, v as u8]
}

pub open spec fn little_first(e: Endian, little: bool) -> bool {
    match e {
        Endian::Little => true,
        Endian::Big => false,
        Endian::Native => little,
    }
}

/// The eight bytes of `v` in byte order `e`.
pub open spec fn encode(v: u64, e: Endian, little: bool) -> Seq<u8> {
    if little_first(e, little) { le_bytes(v) } else { be_bytes(v) }
}

fn encode_exec(v: u64, e: Endian, little: bool) -> (r: Vec<u8>)
    ensures
        r@ == encode(v, e, little),
{
    let lf = match e {
        Endian::Little => true,
        Endian::Big => false,
        Endian::Native => little,
    };
    let mut r: Vec<u8> = Vec::new();
    if lf {
        r.push(v as u8);
        r.push((v >> 8u64) as u8);
        r.push((v >> 16u64) as u8);
        r.push((v >> 24u64) as u8);
        r.push((v >> 32u64) as u8);
        r.push((v >> 40u64) as u8);
        r.push((v >> 48u64) as u8);
        r.push((v >> 56u64) as u8);
        assert(r@ =~= le_bytes(v));
    } else {
        r.push((v >> 56u64) as u8);
        r.push((v >> 48u64) as u8);
        r.push((v >> 40u64) as u8);
        r.push((v >> 32u64) as u8);
        r.push((v >> 24u64) as u8);
        r.push((v >> 16u64) as u8);
        r.push((v >> 8u64) as u8);
        r.push(v as u8);
        assert(r@ =~= be_bytes(v));
    }
    r
}

/// The unsigned value of bytes read lowest first.
pub open spec fn le_value(b: Seq<u8>) -> nat
    decreases b.len(),
{
    if b.len() == 0 {
        0
    } else {
        b[0] as nat + 256 * le_value(b.drop_first())
    }
}

/// The unsigned value of bytes read in byte order `e`.
pub open spec fn decode(b: Seq<u8>, e: Endian, little: bool) -> nat {
    if little_first(e, little) { le_value(b) } else { le_value(b.reverse()) }
}

/// `256` to the power `n`.
pub open spec fn pow256(n: nat) -> nat
    decreases n,
{
    if n == 0 { 1 } else { 256 * pow256((n - 1) as nat) }
}

/// A 32-bit value read as two's complement.
pub open spec fn signed32(v: nat) -> int {
    if v < 0x8000_0000 { v as int } else { v - 0x1_0000_0000 }
}

/// A 64-bit value read as two's complement.
pub open spec fn signed64(v: nat) -> int {
    if v < 0x8000_0000_0000_0000 { v as int } else { v - 0x1_0000_0000_0000_0000 }
}

proof fn lemma_le_value_bound(b: Seq<u8>)
    ensures
        le_value(b) < pow256(b.len()),
    decreases b.len(),
{
    if b.len() > 0 {
        lemma_le_value_bound(b.drop_first());
    }
}

proof fn lemma_pow256_8()
    ensures
        pow256(4) == 0x1_0000_0000,
        pow256(8) == 0x1_0000_0000_0000_0000,
{
    reveal_with_fuel(pow256, 9);
}

proof fn lemma_pow256_mono(m: nat, n: nat)
    requires
        m <= n,
    ensures
        pow256(m) <= pow256(n),
    decreases n - m,
{
    if m < n {
        lemma_pow256_mono(m, (n - 1) as nat);
    }
}

/// Reads `b` lowest byte first.
fn le_value_exec(b: &[u8]) -> (r: u64)
    requires
        b@.len() <= 8,
    ensures
        r == le_value(b@),
{
    let mut v: u64 = 0;
    let mut k: usize = b.len();
    assert(b@.subrange(b@.len() as int, b@.len() as int) =~= Seq::<u8>::empty());
    while k > 0
        invariant
            k <= b@.len(),
            b@.len() <= 8,
            v == le_value(b@.subrange(k as int, b@.len() as int)),
        decreases k,
    {
        let ghost tail = b@.subrange(k as int, b@.len() as int);
        let ghost next = b@.subrange(k - 1, b@.len() as int);
        assert(next.drop_first() =~= tail);
        assert(next[0] == b@[k - 1]);
        proof {
            lemma_le_value_bound(next);
            lemma_pow256_8();
            lemma_pow256_mono(next.len(), 8);
        }
        v = b[k - 1] as u64 + 256 * v;
        k = k - 1;
    }
    assert(b@.subrange(0, b@.len() as int) =~= b@);
    v
}

// ---------------------------------------------------------------------------
// Writing arguments

/// `buf` with `n` bytes of `bytes` written at `off`.
pub open spec fn put(buf: Seq<u8>, off: int, bytes: Seq<u8>, n: int) -> Seq<u8> {
    buf.subrange(0, off) + bytes.subrange(0, n) + buf.subrange(off + n, buf.len() as int)
}

pub open spec fn min(a: int, b: int) -> int {
    if a < b { a } else { b }
}

pub open spec fn field_endian(f: FieldDescriptor, e: Endian) -> Endian {
    match f.endian {
        Some(x) => x,
        None => e,
    }
}

pub open spec fn overflow_text(f: FieldDescriptor, len: nat) -> Seq<char> {
    "Buffer overflow at field "@ + f.name@ + ": offset "@ + decimal(f.offset as nat) + " + size "@
        + decimal(f.size_bytes as nat) + " > buffer len "@ + decimal(len)
}

pub open spec fn address_text(addr: nat, base: nat, len: nat) -> Seq<char> {
    "Address 0x"@ + hex(addr, false) + " outside buffer range [0x"@ + hex(base, false) + ", 0x"@
        + hex(base + len, false) + ")"@
}

/// What writing value `v` as field `f` does to `buf`: the new bytes, or
/// the error.
pub open spec fn write_field(buf: Seq<u8>, f: FieldDescriptor, v: FfiValueV, e: Endian, little: bool, base: nat)
    -> Result<Seq<u8>, Seq<char>> {
    let off = f.offset as int;
    let size = f.size_bytes as int;
    if off + size > buf.len() {
        Err(overflow_text(f, buf.len()))
    } else if f.name@ == "address"@ && (v matches FfiValueV::Int(a) && ((a as usize) < base || (a as usize) + buf.len() > base + buf.len())) {
        Err(address_text((v->Int_0 as usize) as nat, base, buf.len()))
    } else {
        match v {
            FfiValueV::Int(x) => Ok(put(buf, off, encode(x as u64, field_endian(f, e), little), min(size, 8))),
            FfiValueV::Float(bits) => Ok(put(buf, off, encode(bits, field_endian(f, e), little), min(size, 8))),
            FfiValueV::Bool(b) => Ok(buf.update(off, if b { 1u8 } else { 0u8 })),
            FfiValueV::String(t) => Ok(put(buf, off, utf8(t), min(utf8(t).len() as int, size))),
            FfiValueV::Data(d) => Ok(put(buf, off, d, min(d.len() as int, size))),
            FfiValueV::Void => Ok(buf),
            _ => Err("Unsupported FfiValue for NativeMapper::drop: "@ + value_debug(v)),
        }
    }
}

/// Writing field `f` cannot go out of the range of `usize` or of the
/// buffer.
pub open spec fn write_ok(buf: Seq<u8>, f: FieldDescriptor, v: FfiValueV) -> bool {
    &&& f.offset + f.size_bytes <= usize::MAX
    &&& (f.name@ == "address"@ && v is Int ==> (v->Int_0 as usize) + buf.len() <= usize::MAX)
    &&& (v is Bool && f.offset + f.size_bytes <= buf.len() ==> f.offset < buf.len())
}

/// The outcome of writing the first `n` fields: the bytes and the total of
/// the field sizes, or the error and the bytes written before it.
pub open spec fn write_fields(buf: Seq<u8>, fields: Seq<FieldDescriptor>, data: Seq<FfiValueV>, e: Endian,
    little: bool, base: nat, n: int) -> Result<(Seq<u8>, nat), (Seq<char>, Seq<u8>)>
    decreases n,
{
    if n <= 0 {
        Ok((buf, 0))
    } else {
        match write_fields(buf, fields, data, e, little, base, n - 1) {
            Err(x) => Err(x),
            Ok((b, total)) => match write_field(b, fields[n - 1], data[n - 1], e, little, base) {
                Err(m) => Err((m, b)),
                Ok(b2) => Ok((b2, (total + fields[n - 1].size_bytes) as nat)),
            },
        }
    }
}

pub open spec fn writes_ok(buf: Seq<u8>, fields: Seq<FieldDescriptor>, data: Seq<FfiValueV>, e: Endian,
    little: bool, base: nat, n: int) -> bool
    decreases n,
{
    if n <= 0 {
        true
    } else {
        writes_ok(buf, fields, data, e, little, base, n - 1) && match write_fields(buf, fields, data, e, little, base, n - 1) {
            Err(_) => true,
            Ok((b, total)) => write_ok(b, fields[n - 1], data[n - 1]) && total + fields[n - 1].size_bytes <= usize::MAX,
        }
    }
}

pub open spec fn arg_count(fields: Seq<FieldDescriptor>, data: Seq<FfiValueV>) -> int {
    min(fields.len() as int, data.len() as int)
}

pub open spec fn data_view(data: Seq<FfiValue>) -> Seq<FfiValueV> {
    data.map_values(|v: FfiValue| value_view(v))
}

/// Writing the arguments is safe whatever the byte order and the buffer's
/// place in memory.
pub open spec fn drop_ok(buf: Seq<u8>, layout: MemoryLayout, data: Seq<FfiValue>) -> bool {
    forall|little: bool, base: nat| base + buf.len() <= usize::MAX ==>
        #[trigger] writes_ok(buf, layout.fields@, data_view(data), layout.endian, little, base,
            arg_count(layout.fields@, data_view(data)))
}

fn write_bytes(buffer: &mut [u8], off: usize, bytes: &[u8], n: usize)
    requires
        off + n <= old(buffer)@.len(),
        n <= bytes@.len(),
    ensures
        final(buffer)@ == put(old(buffer)@, off as int, bytes@, n as int),
{
    let ghost b0 = buffer@;
    let len = buffer.len();
    let mut j: usize = 0;
    while j < n
        invariant
            j <= n,
            buffer@.len() == len,
            off + n <= buffer@.len(),
            n <= bytes@.len(),
            buffer@.len() == b0.len(),
            forall|k: int| 0 <= k < buffer@.len() ==> #[trigger] buffer@[k] ==
                (if off <= k < off + j { bytes@[k - off] } else { b0[k] }),
        decreases n - j,
    {
        buffer[off + j] = bytes[j];
        j = j + 1;
    }
    assert(buffer@ =~= put(b0, off as int, bytes@, n as int));
}

pub struct NativeMapper;

impl NativeMapper {
    fn write_field_at(&self, buffer: &mut [u8], f: &FieldDescriptor, v: &FfiValue, e: Endian, little: bool, base: usize)
        -> (r: Result<(), String>)
        requires
            write_ok(old(buffer)@, *f, value_view(*v)),
            base + old(buffer)@.len() <= usize::MAX,
        ensures
            match write_field(old(buffer)@, *f, value_view(*v), e, little, base as nat) {
                Ok(b) => r is Ok && final(buffer)@ == b,
                Err(m) => r matches Err(t) && t@ == m && final(buffer)@ == old(buffer)@,
            },
    {
        let len = buffer.len();
        let off = f.offset;
        let size = f.size_bytes;
        if off + size > len {
            let mut m = owned("Buffer overflow at field ");
            m.append(f.name.as_str());
            m.append(": offset ");
            push_decimal(&mut m, off as u64);
            m.append(" + size ");
            push_decimal(&mut m, size as u64);
            m.append(" > buffer len ");
            push_decimal(&mut m, len as u64);
            return Err(m);
        }
        let named_address = {
            let c = crate::text::chars_of(f.name.as_str());
            crate::text::eq_str(c.as_slice(), "address")
        };
        if named_address {
            match v {
                FfiValue::Int(a) => {
                    let addr = *a as usize;
                    if addr < base || addr + len > base + len {
                        let mut m = owned("Address 0x");
                        push_hex(&mut m, addr as u64, false);
                        m.append(" outside buffer range [0x");
                        push_hex(&mut m, base as u64, false);
                        m.append(", 0x");
                        push_hex(&mut m, (base + len) as u64, false);
                        m.append(")");
                        return Err(m);
                    }
                }
                _ => {}
            }
        }
        let endian = match f.endian {
            Some(x) => x,
            None => e,
        };
        let n8 = if size < 8 { size } else { 8 };
        match v {
            FfiValue::Int(x) => {
                let bytes = encode_exec(*x as u64, endian, little);
                write_bytes(buffer, off, bytes.as_slice(), n8);
            }
            FfiValue::Float(bits) => {
                let bytes = encode_exec(*bits, endian, little);
                write_bytes(buffer, off, bytes.as_slice(), n8);
            }
            FfiValue::Bool(b) => {
                buffer[off] = if *b { 1u8 } else { 0u8 };
            }
            FfiValue::String(t) => {
                let bytes = t.as_str().as_bytes();
                let n = if bytes.len() < size { bytes.len() } else { size };
                write_bytes(buffer, off, bytes, n);
            }
            FfiValue::Data(d) => {
                let n = if d.len() < size { d.len() } else { size };
                write_bytes(buffer, off, d.as_slice(), n);
            }
            FfiValue::Void => {}
            _ => {
                let mut m = owned("Unsupported FfiValue for NativeMapper::drop: ");
                let d = debug_value(v);
                m.append(d.as_str());
                return Err(m);
            }
        }
        Ok(())
    }

    /// Writes the arguments into the buffer, field by field, for as many
    /// fields as there are arguments; gives the total of their sizes. `base`
    /// is where the buffer starts in memory and `little` whether the
    /// machine's own byte order is lowest byte first.
    #[verifier::rlimit(60)]
    pub fn drop_at(&self, buffer: &mut [u8], layout: &MemoryLayout, data: &[FfiValue], base: usize, little: bool)
        -> (r: Result<usize, String>)
        requires
            base + old(buffer)@.len() <= usize::MAX,
            writes_ok(old(buffer)@, layout.fields@, data_view(data@), layout.endian, little, base as nat,
                arg_count(layout.fields@, data_view(data@))),
        ensures
            match write_fields(old(buffer)@, layout.fields@, data_view(data@), layout.endian, little, base as nat,
                arg_count(layout.fields@, data_view(data@))) {
                Ok((b, total)) => r matches Ok(t) && t == total && final(buffer)@ == b,
                Err((m, b)) => r matches Err(t) && t@ == m && final(buffer)@ == b,
            },
    {
        let ghost b0 = buffer@;
        let ghost dv = data_view(data@);
        let n = if layout.fields.len() < data.len() { layout.fields.len() } else { data.len() };
        let mut total: usize = 0;
        let mut i: usize = 0;
        while i < n
            invariant
                i <= n,
                n == arg_count(layout.fields@, dv),
                n <= layout.fields@.len(),
                n <= data@.len(),
                dv == data_view(data@),
                b0 == old(buffer)@,
                buffer@.len() == b0.len(),
                base + b0.len() <= usize::MAX,
                writes_ok(b0, layout.fields@, dv, layout.endian, little, base as nat, n as int),
                write_fields(b0, layout.fields@, dv, layout.endian, little, base as nat, i as int)
                    == Ok::<(Seq<u8>, nat), (Seq<char>, Seq<u8>)>((buffer@, total as nat)),
            decreases n - i,
        {
            proof { lemma_writes_ok_prefix(b0, layout.fields@, dv, layout.endian, little, base as nat, i + 1, n as int); }
            assert(dv[i as int] == value_view(data@[i as int]));
            let ghost before = buffer@;
            match self.write_field_at(buffer, &layout.fields[i], &data[i], layout.endian, little, base) {
                Ok(()) => {}
                Err(m) => {
                    assert(write_field(before, layout.fields@[i as int], dv[i as int], layout.endian, little, base as nat) is Err);
                    assert(write_fields(b0, layout.fields@, dv, layout.endian, little, base as nat, i + 1)
                        == Err::<(Seq<u8>, nat), (Seq<char>, Seq<u8>)>((m@, before)));
                    proof { lemma_write_fields_err_stays(b0, layout.fields@, dv, layout.endian, little, base as nat, i + 1, n as int); }
                    return Err(m);
                }
            }
            total = total + layout.fields[i].size_bytes;
            i = i + 1;
        }
        Ok(total)
    }

    /// Writes the arguments into the buffer (see `drop_at`), at the place
    /// the buffer has in memory and in the machine's byte order.
    pub fn drop(&self, buffer: &mut [u8], layout: &MemoryLayout, data: &[FfiValue]) -> (r: Result<usize, String>)
        requires
            drop_ok(old(buffer)@, *layout, data@),
        ensures
            exists|little: bool, base: nat| base + old(buffer)@.len() <= usize::MAX &&
                match #[trigger] write_fields(old(buffer)@, layout.fields@, data_view(data@), layout.endian, little, base,
                    arg_count(layout.fields@, data_view(data@))) {
                    Ok((b, total)) => r matches Ok(t) && t == total && final(buffer)@ == b,
                    Err((m, b)) => r matches Err(t) && t@ == m && final(buffer)@ == b,
                },
    {
        let little = native_is_little();
        let base = buffer_address(buffer);
        assert(writes_ok(buffer@, layout.fields@, data_view(data@), layout.endian, little, base as nat,
            arg_count(layout.fields@, data_view(data@))));
        self.drop_at(buffer, layout, data, base, little)
    }
}

proof fn lemma_writes_ok_prefix(buf: Seq<u8>, fields: Seq<FieldDescriptor>, data: Seq<FfiValueV>, e: Endian,
    little: bool, base: nat, m: int, n: int)
    requires
        0 <= m <= n,
        writes_ok(buf, fields, data, e, little, base, n),
    ensures
        writes_ok(buf, fields, data, e, little, base, m),
    decreases n - m,
{
    if m < n {
        lemma_writes_ok_prefix(buf, fields, data, e, little, base, m, n - 1);
    }
}

/// Once a field fails, the outcome of writing more fields is that failure.
proof fn lemma_write_fields_err_stays(buf: Seq<u8>, fields: Seq<FieldDescriptor>, data: Seq<FfiValueV>, e: Endian,
    little: bool, base: nat, m: int, n: int)
    requires
        1 <= m <= n,
        write_fields(buf, fields, data, e, little, base, m) is Err,
    ensures
        write_fields(buf, fields, data, e, little, base, n) == write_fields(buf, fields, data, e, little, base, m),
    decreases n - m,
{
    if m < n {
        lemma_write_fields_err_stays(buf, fields, data, e, little, base, m, n - 1);
    }
}

// ---------------------------------------------------------------------------
// Reading results

/// What reading field `f` gives: a 1-byte field is a Boolean, a 4-byte
/// field a 32-bit integer, an 8-byte field a 64-bit integer (in the field's
/// byte order, else `e`), any other field its bytes.
pub open spec fn read_field(buf: Seq<u8>, f: FieldDescriptor, e: Endian, little: bool) -> Result<FfiValueV, Seq<char>> {
    let off = f.offset as int;
    let size = f.size_bytes as int;
    if off + size > buf.len() {
        Err("Buffer underflow reading field "@ + f.name@)
    } else {
        let b = buf.subrange(off, off + size);
        if size == 1 {
            Ok(FfiValueV::Bool(b[0] != 0))
        } else if size == 4 {
            Ok(FfiValueV::Int(signed32(decode(b, field_endian(f, e), little)) as i64))
        } else if size == 8 {
            Ok(FfiValueV::Int(signed64(decode(b, field_endian(f, e), little)) as i64))
        } else {
            Ok(FfiValueV::Data(b))
        }
    }
}

/// `t` with `(k, v)`: replacing the first entry named `k`, else added.
pub open spec fn put_named(t: Seq<(Seq<char>, FfiValueV)>, k: Seq<char>, v: FfiValueV) -> Seq<(Seq<char>, FfiValueV)> {
    match crate::seqs::first_index(t.len(), named_pred(t, k)) {
        Some(i) => t.update(i, (k, v)),
        None => t.push((k, v)),
    }
}

pub open spec fn named_pred(t: Seq<(Seq<char>, FfiValueV)>, k: Seq<char>) -> spec_fn(int) -> bool {
    |i: int| t[i].0 == k
}

/// The named values of the first `n` fields, or the first error.
pub open spec fn read_fields(buf: Seq<u8>, fields: Seq<FieldDescriptor>, e: Endian, little: bool, n: int)
    -> Result<Seq<(Seq<char>, FfiValueV)>, Seq<char>>
    decreases n,
{
    if n <= 0 {
        Ok(seq![])
    } else {
        match read_fields(buf, fields, e, little, n - 1) {
            Err(m) => Err(m),
            Ok(t) => match read_field(buf, fields[n - 1], e, little) {
                Err(m) => Err(m),
                Ok(v) => Ok(put_named(t, fields[n - 1].name@, v)),
            },
        }
    }
}

/// What reading a result gives: nothing for no fields, the one field's
/// value, or a `Result` struct of all fields by name.
pub open spec fn read_result(buf: Seq<u8>, layout: MemoryLayout, little: bool) -> Result<FfiValueV, Seq<char>> {
    let fs = layout.fields@;
    if fs.len() == 0 {
        Ok(FfiValueV::Void)
    } else if fs.len() == 1 {
        read_field(buf, fs[0], layout.endian, little)
    } else {
        match read_fields(buf, fs, layout.endian, little, fs.len() as int) {
            Err(m) => Err(m),
            Ok(t) => Ok(FfiValueV::Struct("Result"@, t)),
        }
    }
}

/// Every field's end fits in a `usize`.
pub open spec fn fields_fit(layout: MemoryLayout) -> bool {
    forall|i: int| 0 <= i < layout.fields@.len() ==> #[trigger] layout.fields@[i].offset + layout.fields@[i].size_bytes <= usize::MAX
}

pub proof fn lemma_named_view(s: Seq<(String, FfiValue)>, n: int)
    requires
        0 <= n <= s.len(),
    ensures
        named_view(s, n).len() == n,
        forall|i: int| 0 <= i < n ==> #[trigger] named_view(s, n)[i] == (s[i].0@, value_view(s[i].1)),
    decreases n,
{
    if n > 0 {
        lemma_named_view(s, n - 1);
    }
}

fn decode_exec(b: &[u8], e: Endian, little: bool) -> (r: u64)
    requires
        b@.len() <= 8,
    ensures
        r == decode(b@, e, little),
{
    let lf = match e {
        Endian::Little => true,
        Endian::Big => false,
        Endian::Native => little,
    };
    if lf {
        le_value_exec(b)
    } else {
        let mut rev: Vec<u8> = Vec::new();
        let mut k: usize = b.len();
        while k > 0
            invariant
                k <= b@.len(),
                rev@ =~= b@.subrange(k as int, b@.len() as int).reverse(),
            decreases k,
        {
            rev.push(b[k - 1]);
            k = k - 1;
            assert(rev@ =~= b@.subrange(k as int, b@.len() as int).reverse());
        }
        assert(b@.subrange(0, b@.len() as int) =~= b@);
        le_value_exec(rev.as_slice())
    }
}

impl NativeMapper {
    /// Reads one field.
    pub fn fetch_field(&self, buffer: &[u8], field: &FieldDescriptor, default_endian: Endian, little: bool)
        -> (r: Result<FfiValue, String>)
        requires
            field.offset + field.size_bytes <= usize::MAX,
        ensures
            match (r, read_field(buffer@, *field, default_endian, little)) {
                (Ok(v), Ok(w)) => value_view(v) == w,
                (Err(m), Err(n)) => m@ == n,
                _ => false,
            },
    {
        let off = field.offset;
        let size = field.size_bytes;
        if off + size > buffer.len() {
            let mut m = owned("Buffer underflow reading field ");
            m.append(field.name.as_str());
            return Err(m);
        }
        let b = &buffer[off..off + size];
        let endian = match field.endian {
            Some(x) => x,
            None => default_endian,
        };
        if size == 1 {
            Ok(FfiValue::Bool(b[0] != 0))
        } else if size == 4 {
            let v = decode_exec(b, endian, little);
            proof { lemma_le_value_bound(b@); lemma_le_value_bound(b@.reverse()); lemma_pow256_8(); }
            let i: i64 = if v < 0x8000_0000 { v as i64 } else { v as i64 - 0x1_0000_0000 };
            Ok(FfiValue::Int(i))
        } else if size == 8 {
            let v = decode_exec(b, endian, little);
            let i: i64 = if v < 0x8000_0000_0000_0000 { v as i64 } else { i64::MIN + (v - 0x8000_0000_0000_0000) as i64 };
            Ok(FfiValue::Int(i))
        } else {
            let mut d: Vec<u8> = Vec::new();
            let mut k: usize = 0;
            while k < b.len()
                invariant
                    k <= b@.len(),
                    d@ == b@.subrange(0, k as int),
                decreases b@.len() - k,
            {
                d.push(b[k]);
                k = k + 1;
                assert(d@ =~= b@.subrange(0, k as int));
            }
            assert(b@.subrange(0, b@.len() as int) =~= b@);
            Ok(FfiValue::Data(d))
        }
    }

    /// Reads a result (see `read_result`) in the given byte order of the
    /// machine.
    pub fn fetch_in(&self, buffer: &[u8], layout: &MemoryLayout, little: bool) -> (r: Result<FfiValue, String>)
        requires
            fields_fit(*layout),
        ensures
            match (r, read_result(buffer@, *layout, little)) {
                (Ok(v), Ok(w)) => value_view(v) == w,
                (Err(m), Err(n)) => m@ == n,
                _ => false,
            },
    {
        let fs = &layout.fields;
        if fs.len() == 0 {
            return Ok(FfiValue::Void);
        }
        if fs.len() == 1 {
            assert(fs@[0].offset + fs@[0].size_bytes <= usize::MAX);
            return self.fetch_field(buffer, &fs[0], layout.endian, little);
        }
        let mut table: Vec<(String, FfiValue)> = Vec::new();
        let mut i: usize = 0;
        proof { lemma_named_view(table@, 0); }
        assert(named_view(table@, table@.len() as int) =~= Seq::<(Seq<char>, FfiValueV)>::empty());
        while i < fs.len()
            invariant
                i <= fs@.len(),
                fs@ == layout.fields@,
                fields_fit(*layout),
                read_fields(buffer@, fs@, layout.endian, little, i as int)
                    == Ok::<Seq<(Seq<char>, FfiValueV)>, Seq<char>>(named_view(table@, table@.len() as int)),
            decreases fs@.len() - i,
        {
            assert(fs@[i as int].offset + fs@[i as int].size_bytes <= usize::MAX);
            match self.fetch_field(buffer, &fs[i], layout.endian, little) {
                Err(m) => {
                    proof { lemma_read_fields_err_stays(buffer@, fs@, layout.endian, little, i + 1, fs@.len() as int); }
                    return Err(m);
                }
                Ok(v) => {
                    put_named_exec(&mut table, fs[i].name.clone(), v);
                }
            }
            i = i + 1;
        }
        Ok(FfiValue::Struct(owned("Result"), table))
    }

    /// Reads a result in the machine's byte order.
    pub fn fetch(&self, buffer: &[u8], layout: &MemoryLayout) -> (r: Result<FfiValue, String>)
        requires
            fields_fit(*layout),
        ensures
            exists|little: bool| match (r, #[trigger] read_result(buffer@, *layout, little)) {
                (Ok(v), Ok(w)) => value_view(v) == w,
                (Err(m), Err(n)) => m@ == n,
                _ => false,
            },
    {
        let little = native_is_little();
        self.fetch_in(buffer, layout, little)
    }

    /// Contracts on buffers are not checked: every buffer passes.
    pub fn validate(&self, buffer: &[u8], contract: &str) -> (r: bool)
        ensures
            r,
    {
        true
    }
}

proof fn lemma_read_fields_err_stays(buf: Seq<u8>, fields: Seq<FieldDescriptor>, e: Endian, little: bool, m: int, n: int)
    requires
        1 <= m <= n,
        read_fields(buf, fields, e, little, m) is Err,
    ensures
        read_fields(buf, fields, e, little, n) == read_fields(buf, fields, e, little, m),
    decreases n - m,
{
    if m < n {
        lemma_read_fields_err_stays(buf, fields, e, little, m, n - 1);
    }
}

fn put_named_exec(table: &mut Vec<(String, FfiValue)>, k: String, v: FfiValue)
    ensures
        named_view(final(table)@, final(table)@.len() as int)
            == put_named(named_view(old(table)@, old(table)@.len() as int), k@, value_view(v)),
{
    let ghost t0 = named_view(table@, table@.len() as int);
    proof { lemma_named_view(table@, table@.len() as int); }
    let ghost p = named_pred(t0, k@);
    let mut j: usize = 0;
    while j < table.len()
        invariant
            j <= table@.len(),
            table@ == old(table)@,
            t0 == named_view(table@, table@.len() as int),
            t0.len() == table@.len(),
            forall|q: int| 0 <= q < t0.len() ==> #[trigger] t0[q] == (table@[q].0@, value_view(table@[q].1)),
            p == named_pred(t0, k@),
            forall|q: int| 0 <= q < j ==> !#[trigger] p(q),
        decreases table@.len() - j,
    {
        let same = {
            let a = crate::text::chars_of(table[j].0.as_str());
            let b = crate::text::chars_of(k.as_str());
            crate::text::chars_eq(a.as_slice(), b.as_slice())
        };
        if same {
            proof { crate::seqs::lemma_first_index_is(t0.len(), p, j as int); }
            let ghost vv = value_view(v);
            let ghost before = table@;
            table.set(j, (k, v));
            proof {
                lemma_named_view(table@, table@.len() as int);
                assert(named_view(table@, table@.len() as int) =~= t0.update(j as int, (k@, vv)));
            }
            return;
        }
        j = j + 1;
    }
    proof { crate::seqs::lemma_first_index_none(t0.len(), p); }
    let ghost kv = k@;
    let ghost vv = value_view(v);
    table.push((k, v));
    proof {
        lemma_named_view(table@, table@.len() as int);
        assert(named_view(table@, table@.len() as int) =~= t0.push((kv, vv)));
    }
}


proof fn lemma_le_roundtrip(v: u64)
    ensures
        le_value(le_bytes(v)) == v as nat,
{
    let b = le_bytes(v);
    reveal_with_fuel(le_value, 9);
    assert(b.drop_first() =~= seq![(v >> 8u64) as u8, (v >> 16u64) as u8, (v >> 24u64) as u8,
        (v >> 32u64) as u8, (v >> 40u64) as u8, (v >> 48u64) as u8, (v >> 56u64) as u8]);
    let s1 = b.drop_first();
    let s2 = s1.drop_first();
    let s3 = s2.drop_first();
    let s4 = s3.drop_first();
    let s5 = s4.drop_first();
    let s6 = s5.drop_first();
    let s7 = s6.drop_first();
    let s8 = s7.drop_first();
    assert(s8.len() == 0);
    assert(le_value(s8) == 0);
    assert(le_value(s7) == s7[0] as nat);
    assert(v as int == (v as u8) as int + 256 * (((v >> 8u64) as u8) as int + 256 * (((v >> 16u64) as u8) as int
        + 256 * (((v >> 24u64) as u8) as int + 256 * (((v >> 32u64) as u8) as int + 256 * (((v >> 40u64) as u8) as int
        + 256 * (((v >> 48u64) as u8) as int + 256 * ((v >> 56u64) as u8) as int))))))) by (bit_vector);
}

proof fn lemma_decode_encode(v: u64, e: Endian, little: bool)
    ensures
        decode(encode(v, e, little), e, little) == v as nat,
{
    lemma_le_roundtrip(v);
    if !little_first(e, little) {
        assert(be_bytes(v).reverse() =~= le_bytes(v));
    }
}

/// Reading an eight-byte field back after writing an integer into it gives
/// the integer, in either byte order.
pub proof fn law_fetch_after_drop_int64(buf: Seq<u8>, f: FieldDescriptor, x: i64, e: Endian, little: bool, base: nat)
    requires
        f.size_bytes == 8,
    ensures
        write_field(buf, f, FfiValueV::Int(x), e, little, base) matches Ok(b2)
            ==> read_field(b2, f, e, little) == Ok::<FfiValueV, Seq<char>>(FfiValueV::Int(x)),
{
    match write_field(buf, f, FfiValueV::Int(x), e, little, base) {
        Ok(b2) => {
            let off = f.offset as int;
            let bytes = encode(x as u64, field_endian(f, e), little);
            assert(b2 == put(buf, off, bytes, 8));
            assert(b2.subrange(off, off + 8) =~= bytes);
            lemma_decode_encode(x as u64, field_endian(f, e), little);
            assert(signed64((x as u64) as nat) == x as int) by {
                if x >= 0 {
                    assert(x >= 0 ==> (x as u64) as int == x as int) by (bit_vector);
                } else {
                    assert(x < 0 ==> (x as u64) as int == x as int + 0x1_0000_0000_0000_0000) by (bit_vector);
                }
            }
        },
        Err(_) => {},
    }
}

/// Reading a four-byte field back after writing an integer that fits in 32
/// bits into it gives the integer, where the field's byte order puts the
/// lowest byte first. (Big-endian order keeps the first four bytes of the
/// eight-byte form, the highest ones, so the integer is not read back.)
pub proof fn law_fetch_after_drop_int32(buf: Seq<u8>, f: FieldDescriptor, x: i64, e: Endian, little: bool, base: nat)
    requires
        f.size_bytes == 4,
        i32::MIN <= x <= i32::MAX,
        little_first(field_endian(f, e), little),
    ensures
        write_field(buf, f, FfiValueV::Int(x), e, little, base) matches Ok(b2)
            ==> read_field(b2, f, e, little) == Ok::<FfiValueV, Seq<char>>(FfiValueV::Int(x)),
{
    match write_field(buf, f, FfiValueV::Int(x), e, little, base) {
        Ok(b2) => {
            let off = f.offset as int;
            let v = x as u64;
            let bytes = encode(v, field_endian(f, e), little);
            assert(b2 == put(buf, off, bytes, 4));
            let r = b2.subrange(off, off + 4);
            assert(r =~= seq![v as u8, (v >> 8u64) as u8, (v >> 16u64) as u8, (v >> 24u64) as u8]);
            reveal_with_fuel(le_value, 5);
            let r1 = r.drop_first();
            let r2 = r1.drop_first();
            let r3 = r2.drop_first();
            let r4 = r3.drop_first();
            assert(r4.len() == 0);
            assert(le_value(r3) == r3[0] as nat);
            assert(signed32(le_value(r)) == x as int) by {
                if x >= 0 {
                    assert(0 <= x <= 0x7fff_ffff ==> (v as u8) as int + 256 * (((v >> 8u64) as u8) as int
                        + 256 * (((v >> 16u64) as u8) as int + 256 * ((v >> 24u64) as u8) as int)) == x as int)
                        by (bit_vector)
                        requires
                            v == x as u64,
                    ;
                } else {
                    assert(-0x8000_0000 <= x < 0 ==> (v as u8) as int + 256 * (((v >> 8u64) as u8) as int
                        + 256 * (((v >> 16u64) as u8) as int + 256 * ((v >> 24u64) as u8) as int)) == x as int + 0x1_0000_0000)
                        by (bit_vector)
                        requires
                            v == x as u64,
                    ;
                }
            }
        },
        Err(_) => {},
    }
}

} // verus!
