//! The shell's answer to one line typed at its prompt: a discovery question
//! (`Tile_0?`, `Storage ? info?`) or a proposition, which may mount or
//! unmount a bitstream.

use vstd::prelude::*;
use crate::text::{
    owned, chars_of, string_of, eq_str, find_slice, to_lowercase, lowercase, contains, ends_with,
    contains_char, words, words_of, views, ends_with_str, contains_char_slice, push_decimal, decimal,
    debug_text, debug_str, trim, strip_trailing, strip_trailing_slice,
};
use crate::msh::parser::{
    MshError, MshErrorV, Proposition, PropositionV, parse_line, parse_spec, error_text,
};
use crate::msh::tether::{
    TetherEngine, TetherError, StorageInfo, StorageInfoV, MountInfoV, storage_views, used_luts,
    mount_index, verified_word, tether_error_text,
};

verus! {

/// Why the shell could not satisfy a line.
#[derive(Debug, Clone, PartialEq)]
pub enum ShellError {
    Parse(MshError),
    UnknownModule(String),
    Tether(TetherError),
}

/// The message the shell prints under `REASON:`.
pub open spec fn shell_error_text(e: ShellError) -> Seq<char> {
    match e {
        ShellError::Parse(p) => error_text(p@),
        ShellError::UnknownModule(m) => "Unknown module: "@ + m@,
        ShellError::Tether(t) => tether_error_text(t),
    }
}

impl ShellError {
    pub fn message(&self) -> (s: String)
        ensures
            s@ == shell_error_text(*self),
    {
        match self {
            ShellError::Parse(p) => p.message(),
            ShellError::UnknownModule(m) => {
                let mut s = owned("Unknown module: ");
                s.append(m.as_str());
                s
            }
            ShellError::Tether(t) => t.message(),
        }
    }
}

/// What a line asks: a discovery about a subject, or a proposition (or the
/// reason it is none).
pub enum LineKind {
    Discovery(Seq<char>),
    Prop(Result<PropositionV, MshErrorV>),
}

/// What `parse_line` makes of a line.
pub open spec fn parse_line_spec(line: Seq<char>) -> Result<PropositionV, MshErrorV> {
    if trim(line).len() == 0 {
        Err(MshErrorV::EmptyInput)
    } else {
        parse_spec(trim(line))
    }
}

/// A word ending in `?` with no space asks about the word; three words whose
/// middle one is `?` ask about the first; anything else is a proposition.
pub open spec fn line_kind(line: Seq<char>) -> LineKind {
    if ends_with(line, "?"@) && !contains_char(line, ' ') {
        LineKind::Discovery(strip_trailing(line, '?'))
    } else if ends_with(line, "?"@) && words(line).len() == 3 && words(line)[1] == "?"@ {
        LineKind::Discovery(words(line)[0])
    } else {
        LineKind::Prop(parse_line_spec(line))
    }
}

/// The bitstream file of a known module and the LUTs it takes.
pub open spec fn module_bitstream(module: Seq<char>) -> Option<(Seq<char>, u32)> {
    if module == "Imp_Core"@ {
        Some(("Imp_Core.writ"@, 40000u32))
    } else if module == "Rendered_GPU"@ {
        Some(("Rendered_GPU.writ"@, 80000u32))
    } else if module == "Neural_Core"@ {
        Some(("Neural_Core.writ"@, 60000u32))
    } else {
        None
    }
}

/// The slot a tile name stands for.
pub open spec fn tile_slot(tile: Seq<char>) -> Seq<char> {
    if tile == "Tile_0"@ {
        "RP_0"@
    } else if tile == "Tile_1"@ {
        "RP_1"@
    } else if tile == "Tile_2"@ {
        "RP_2"@
    } else {
        tile
    }
}

/// The slot a module is kept in.
pub open spec fn module_slot(module: Seq<char>) -> Seq<char> {
    if module == "Imp_Core"@ {
        "RP_0"@
    } else if module == "Rendered_GPU"@ {
        "RP_1"@
    } else if module == "Neural_Core"@ {
        "RP_2"@
    } else {
        module
    }
}

pub open spec fn exists_on_text(module: Seq<char>, tile: Seq<char>, file: Seq<char>, slot: Seq<char>) -> Seq<char> {
    "WORK REQUIRED:\n  1. Load "@ + file + " from SD card.         [OK]\n"@
        + "  2. Verify signature against PUF-KEK.  [OK]\n"@
        + "  3. Check leakage contract.           [VERIFIED]\n"@
        + "  4. TPU calculates relocation.        [OK]\n"@
        + "  5. Mount to "@ + slot + " via PCAP.           [OK]\n"@
        + "  6. Activate fence.                   [OK]\n"@
        + "RESULT: "@ + module + " exists_on "@ + tile + ". [TRUE]"@
}

pub open spec fn absent_text(module: Seq<char>, slot: Seq<char>) -> Seq<char> {
    "WORK REQUIRED:\n  1. Deassert ENA for "@ + slot + ".             [OK]\n"@
        + "  2. Assert RST.                      [OK]\n"@
        + "  3. Stream blanking bitstream.        [OK]\n"@
        + "  4. Deactivate fence.                 [OK]\n"@
        + "RESULT: "@ + module + " absent. [TRUE]"@
}

pub open spec fn is_active_text(tile: Seq<char>) -> Seq<char> {
    tile + " is [FABRIC_TILE]. Accepts predicates: { exists_on, absent, is_active, clear, probe }."@
}

/// Some file on the card has `word` in its name, ignoring case.
pub open spec fn storage_has(st: Seq<StorageInfoV>, word: Seq<char>) -> bool {
    exists|i: int| 0 <= i < st.len() && contains(lowercase(#[trigger] st[i].filename), lowercase(word))
}

pub open spec fn contains_text(st: Seq<StorageInfoV>, container: Seq<char>, item: Seq<char>) -> Seq<char> {
    if container == "Storage"@ {
        if storage_has(st, item) {
            "Storage contains "@ + item + ". [TRUE]"@
        } else {
            "Storage does not contain "@ + item + ". [FALSE]"@
        }
    } else {
        container + " contains "@ + item + ". [UNKNOWN]"@
    }
}

/// The storage listing of the `Storage?` answer.
pub open spec fn storage_listing(st: Seq<StorageInfoV>) -> Seq<char>
    decreases st.len(),
{
    if st.len() == 0 {
        Seq::empty()
    } else {
        storage_listing(st.drop_last()) + "  - "@ + st.last().filename + " ("@ + decimal(st.last().size as nat)
            + " bytes) ["@ + verified_word(st.last().verified) + "]\n"@
    }
}

/// LUTs a known module takes.
pub open spec fn module_luts(subject: Seq<char>) -> nat {
    if subject == "Imp_Core"@ {
        40000
    } else if subject == "Rendered_GPU"@ {
        80000
    } else {
        60000
    }
}

/// The answer to a discovery question about `subject`.
pub open spec fn discovery_text(total: nat, available: nat, st: Seq<StorageInfoV>, subject: Seq<char>) -> Seq<char> {
    if subject == "Tile_0"@ {
        "TILE(0) is a [FABRIC_TILE].\nAccepts predicates: { exists_on, absent, is_active, clear, probe }.\nCapacity: "@
            + decimal(total) + " LUTs, "@ + decimal(available) + " available."@
    } else if subject == "Imp_Core"@ || subject == "Rendered_GPU"@ || subject == "Neural_Core"@ {
        subject + " is a [LOGIC_MODULE].\nRequires: { "@ + decimal(module_luts(subject))
            + " LUTs, 50 DSPs, 150MHz_clock }.\nCurrently: "@
            + (if storage_has(st, subject) { "[READY]"@ } else { "[NOT FOUND]"@ }) + " [VERIFIED]."@
    } else if subject == "Storage"@ {
        "STORAGE is a [STORAGE_DEVICE].\nContains:\n"@ + storage_listing(st)
    } else if subject == "exists_on"@ {
        "exists_on [Predicate] requires { Module_Name from Storage, Target_Tile }."@
    } else {
        subject + " is [UNKNOWN]. Use ? for discovery."@
    }
}

/// The `{:?}` form of an optional string.
pub open spec fn opt_debug(o: Option<Seq<char>>) -> Seq<char> {
    match o {
        Some(s) => "Some("@ + debug_text(s) + ")"@,
        None => "None"@,
    }
}

pub open spec fn custom_text(subject: Seq<char>, predicate: Seq<char>, object: Option<Seq<char>>) -> Seq<char> {
    "PROPOSITION: "@ + subject + " "@ + predicate + " "@ + opt_debug(object) + ". [UNSATISFIED]"@
}

/// The answer the engine gives to a discovery question.
pub open spec fn engine_discovery(e: TetherEngine, subject: Seq<char>) -> Seq<char> {
    discovery_text(
        e.total_luts() as nat,
        (e.total_luts() - used_luts(e.mounts_view())) as nat,
        e.storage_view(),
        subject,
    )
}

/// The line makes the shell read the propositional context (and so needs
/// the mounted bitstreams to fit the fabric).
pub open spec fn reads_context(line: Seq<char>) -> bool {
    match line_kind(line) {
        LineKind::Discovery(_) => true,
        LineKind::Prop(Ok(PropositionV::Contains { container, .. })) => container == "Storage"@,
        LineKind::Prop(Ok(PropositionV::Custom { predicate, .. })) => predicate == "?"@,
        _ => false,
    }
}

fn storage_contains(st: &Vec<StorageInfo>, word: &[char]) -> (b: bool)
    ensures
        b == storage_has(storage_views(st@), word@),
{
    let w = to_lowercase(string_of(word).as_str());
    let wc = chars_of(w.as_str());
    let ghost sv = storage_views(st@);
    let mut i: usize = 0;
    while i < st.len()
        invariant
            i <= st@.len(),
            sv == storage_views(st@),
            wc@ == lowercase(word@),
            forall|j: int| 0 <= j < i ==> !contains(lowercase(#[trigger] sv[j].filename), lowercase(word@)),
        decreases st@.len() - i,
    {
        let f = to_lowercase(st[i].filename.as_str());
        let fc = chars_of(f.as_str());
        assert(sv[i as int].filename == st@[i as int].filename@);
        if find_slice(fc.as_slice(), wc.as_slice()).is_some() {
            assert(contains(lowercase(sv[i as int].filename), lowercase(word@)));
            return true;
        }
        i = i + 1;
    }
    false
}

fn discovery(engine: &TetherEngine, subject: &[char]) -> (s: String)
    requires
        used_luts(engine.mounts_view()) <= engine.total_luts(),
    ensures
        s@ == engine_discovery(*engine, subject@),
{
    let ctx = engine.get_context();
    if eq_str(subject, "Tile_0") {
        let mut s = owned(
            "TILE(0) is a [FABRIC_TILE].\nAccepts predicates: { exists_on, absent, is_active, clear, probe }.\nCapacity: ",
        );
        push_decimal(&mut s, ctx.total_luts as u64);
        s.append(" LUTs, ");
        push_decimal(&mut s, ctx.available_luts as u64);
        s.append(" available.");
        s
    } else if eq_str(subject, "Imp_Core") || eq_str(subject, "Rendered_GPU") || eq_str(subject, "Neural_Core") {
        let luts: u64 = if eq_str(subject, "Imp_Core") {
            40000
        } else if eq_str(subject, "Rendered_GPU") {
            80000
        } else {
            60000
        };
        let mut s = string_of(subject);
        s.append(" is a [LOGIC_MODULE].\nRequires: { ");
        push_decimal(&mut s, luts);
        s.append(" LUTs, 50 DSPs, 150MHz_clock }.\nCurrently: ");
        if storage_contains(&ctx.storage, subject) {
            s.append("[READY]");
        } else {
            s.append("[NOT FOUND]");
        }
        s.append(" [VERIFIED].");
        s
    } else if eq_str(subject, "Storage") {
        let mut s = owned("STORAGE is a [STORAGE_DEVICE].\nContains:\n");
        let ghost base = s@;
        let ghost sv = storage_views(ctx.storage@);
        let mut i: usize = 0;
        while i < ctx.storage.len()
            invariant
                i <= ctx.storage@.len(),
                sv == storage_views(ctx.storage@),
                s@ == base + storage_listing(sv.subrange(0, i as int)),
            decreases ctx.storage@.len() - i,
        {
            let item = &ctx.storage[i];
            s.append("  - ");
            s.append(item.filename.as_str());
            s.append(" (");
            push_decimal(&mut s, item.size);
            s.append(" bytes) [");
            if item.verified {
                s.append("VERIFIED");
            } else {
                s.append("UNVERIFIED");
            }
            s.append("]\n");
            proof {
                assert(sv.subrange(0, i + 1).drop_last() =~= sv.subrange(0, i as int));
                assert(sv.subrange(0, i + 1).last() == item@);
            }
            i = i + 1;
        }
        assert(sv.subrange(0, ctx.storage@.len() as int) =~= sv);
        s
    } else if eq_str(subject, "exists_on") {
        owned("exists_on [Predicate] requires { Module_Name from Storage, Target_Tile }.")
    } else {
        let mut s = string_of(subject);
        s.append(" is [UNKNOWN]. Use ? for discovery.");
        s
    }
}

fn module_bitstream_exec(module: &[char]) -> (r: Option<(&'static str, u32)>)
    ensures
        match (r, module_bitstream(module@)) {
            (Some((f, l)), Some((sf, sl))) => f@ == sf && l == sl,
            (None, None) => true,
            _ => false,
        },
{
    if eq_str(module, "Imp_Core") {
        Some(("Imp_Core.writ", 40000))
    } else if eq_str(module, "Rendered_GPU") {
        Some(("Rendered_GPU.writ", 80000))
    } else if eq_str(module, "Neural_Core") {
        Some(("Neural_Core.writ", 60000))
    } else {
        None
    }
}

fn tile_slot_exec(tile: &[char]) -> (r: String)
    ensures
        r@ == tile_slot(tile@),
{
    if eq_str(tile, "Tile_0") {
        owned("RP_0")
    } else if eq_str(tile, "Tile_1") {
        owned("RP_1")
    } else if eq_str(tile, "Tile_2") {
        owned("RP_2")
    } else {
        string_of(tile)
    }
}

fn module_slot_exec(module: &[char]) -> (r: String)
    ensures
        r@ == module_slot(module@),
{
    if eq_str(module, "Imp_Core") {
        owned("RP_0")
    } else if eq_str(module, "Rendered_GPU") {
        owned("RP_1")
    } else if eq_str(module, "Neural_Core") {
        owned("RP_2")
    } else {
        string_of(module)
    }
}

/// The engine is left as it was.
pub open spec fn unchanged(before: TetherEngine, after: TetherEngine) -> bool {
    &&& after.mounts_view() == before.mounts_view()
    &&& after.storage_view() == before.storage_view()
    &&& after.total_luts() == before.total_luts()
}

/// Answers one line typed at the prompt. `Ok(Some(text))` is printed as it
/// stands; an error is reported as a failed proof of the line.
pub fn handle_line(engine: &mut TetherEngine, line: &str) -> (r: Result<Option<String>, ShellError>)
    requires
        line@.len() <= usize::MAX / 4,
        reads_context(line@) ==> used_luts(old(engine).mounts_view()) <= old(engine).total_luts(),
    ensures
        match line_kind(line@) {
            LineKind::Discovery(subject) => (r matches Ok(Some(t)) && t@ == engine_discovery(*old(engine), subject))
                && unchanged(*old(engine), *final(engine)),
            LineKind::Prop(Err(e)) => (r matches Err(ShellError::Parse(pe)) && pe@ == e)
                && unchanged(*old(engine), *final(engine)),
            LineKind::Prop(Ok(p)) => match p {
                PropositionV::ExistsOn { module, tile } => match module_bitstream(module) {
                    None => (r matches Err(ShellError::UnknownModule(m)) && m@ == module)
                        && unchanged(*old(engine), *final(engine)),
                    Some((file, luts)) => match mount_index(old(engine).mounts_view(), tile_slot(tile)) {
                        None => (r matches Err(ShellError::Tether(TetherError::UnknownSlot(s))) && s@ == tile_slot(tile))
                            && unchanged(*old(engine), *final(engine)),
                        Some(i) => (r matches Ok(Some(t)) && t@ == exists_on_text(module, tile, file, tile_slot(tile)))
                            && final(engine).storage_view() == old(engine).storage_view()
                            && final(engine).total_luts() == old(engine).total_luts()
                            && final(engine).mounts_view() == old(engine).mounts_view().update(i, MountInfoV {
                                slot: old(engine).mounts_view()[i].slot,
                                bitstream_name: Some(file),
                                active: true,
                                lut_count: luts,
                            }),
                    },
                },
                PropositionV::Absent { module } => match mount_index(old(engine).mounts_view(), module_slot(module)) {
                    None => (r matches Err(ShellError::Tether(TetherError::UnknownSlot(s))) && s@ == module_slot(module))
                        && unchanged(*old(engine), *final(engine)),
                    Some(i) => (r matches Ok(Some(t)) && t@ == absent_text(module, module_slot(module)))
                        && final(engine).storage_view() == old(engine).storage_view()
                        && final(engine).total_luts() == old(engine).total_luts()
                        && final(engine).mounts_view() == old(engine).mounts_view().update(i, MountInfoV {
                            bitstream_name: None,
                            active: false,
                            ..old(engine).mounts_view()[i]
                        }),
                },
                PropositionV::IsActive { tile } => (r matches Ok(Some(t)) && t@ == is_active_text(tile))
                    && unchanged(*old(engine), *final(engine)),
                PropositionV::Contains { container, item } => (r matches Ok(Some(t)) && t@ == contains_text(old(engine).storage_view(), container, item))
                    && unchanged(*old(engine), *final(engine)),
                PropositionV::Custom { subject, predicate, object } => (r matches Ok(Some(t)) && t@ == (if predicate == "?"@ {
                        engine_discovery(*old(engine), subject)
                    } else {
                        custom_text(subject, predicate, object)
                    })) && unchanged(*old(engine), *final(engine)),
            },
        },
{
    let chars = chars_of(line);
    let q = ends_with_str(chars.as_slice(), "?");
    if q && !contains_char_slice(chars.as_slice(), ' ') {
        let subject = strip_trailing_slice(chars.as_slice(), '?');
        return Ok(Some(discovery(engine, subject)));
    }
    if q {
        let parts = words_of(chars.as_slice());
        proof {
            assert(views(parts@).len() == parts@.len());
        }
        if parts.len() == 3 && eq_str(parts[1].as_slice(), "?") {
            assert(views(parts@)[1] == parts@[1]@);
            assert(views(parts@)[0] == parts@[0]@);
            return Ok(Some(discovery(engine, parts[0].as_slice())));
        }
    }
    let prop = match parse_line(line) {
        Ok(p) => p,
        Err(e) => return Err(ShellError::Parse(e)),
    };
    match prop {
        Proposition::ExistsOn { module, tile } => {
            let mchars = chars_of(module.as_str());
            let tchars = chars_of(tile.as_str());
            let slot = tile_slot_exec(tchars.as_slice());
            match module_bitstream_exec(mchars.as_slice()) {
                None => Err(ShellError::UnknownModule(module)),
                Some((file, luts)) => {
                    match engine.mount_bitstream(slot.as_str(), file, luts) {
                        Err(e) => Err(ShellError::Tether(e)),
                        Ok(()) => {
                            let mut s = owned("WORK REQUIRED:\n  1. Load ");
                            s.append(file);
                            s.append(" from SD card.         [OK]\n");
                            s.append("  2. Verify signature against PUF-KEK.  [OK]\n");
                            s.append("  3. Check leakage contract.           [VERIFIED]\n");
                            s.append("  4. TPU calculates relocation.        [OK]\n");
                            s.append("  5. Mount to ");
                            s.append(slot.as_str());
                            s.append(" via PCAP.           [OK]\n");
                            s.append("  6. Activate fence.                   [OK]\n");
                            s.append("RESULT: ");
                            s.append(module.as_str());
                            s.append(" exists_on ");
                            s.append(tile.as_str());
                            s.append(". [TRUE]");
                            Ok(Some(s))
                        }
                    }
                }
            }
        }
        Proposition::Absent { module } => {
            let mchars = chars_of(module.as_str());
            let slot = module_slot_exec(mchars.as_slice());
            match engine.unmount_bitstream(slot.as_str()) {
                Err(e) => Err(ShellError::Tether(e)),
                Ok(()) => {
                    let mut s = owned("WORK REQUIRED:\n  1. Deassert ENA for ");
                    s.append(slot.as_str());
                    s.append(".             [OK]\n");
                    s.append("  2. Assert RST.                      [OK]\n");
                    s.append("  3. Stream blanking bitstream.        [OK]\n");
                    s.append("  4. Deactivate fence.                 [OK]\n");
                    s.append("RESULT: ");
                    s.append(module.as_str());
                    s.append(" absent. [TRUE]");
                    Ok(Some(s))
                }
            }
        }
        Proposition::IsActive { tile } => {
            let mut s = tile;
            s.append(" is [FABRIC_TILE]. Accepts predicates: { exists_on, absent, is_active, clear, probe }.");
            Ok(Some(s))
        }
        Proposition::Contains { container, item } => {
            let cchars = chars_of(container.as_str());
            let ichars = chars_of(item.as_str());
            if eq_str(cchars.as_slice(), "Storage") {
                let st = engine.get_context().storage;
                if storage_contains(&st, ichars.as_slice()) {
                    let mut s = owned("Storage contains ");
                    s.append(item.as_str());
                    s.append(". [TRUE]");
                    Ok(Some(s))
                } else {
                    let mut s = owned("Storage does not contain ");
                    s.append(item.as_str());
                    s.append(". [FALSE]");
                    Ok(Some(s))
                }
            } else {
                let mut s = container;
                s.append(" contains ");
                s.append(item.as_str());
                s.append(". [UNKNOWN]");
                Ok(Some(s))
            }
        }
        Proposition::Custom { subject, predicate, object } => {
            let pchars = chars_of(predicate.as_str());
            if eq_str(pchars.as_slice(), "?") {
                let schars = chars_of(subject.as_str());
                Ok(Some(discovery(engine, schars.as_slice())))
            } else {
                let mut s = owned("PROPOSITION: ");
                s.append(subject.as_str());
                s.append(" ");
                s.append(predicate.as_str());
                s.append(" ");
                match &object {
                    Some(o) => {
                        s.append("Some(");
                        s.append(debug_str(o.as_str()).as_str());
                        s.append(")");
                    }
                    None => {
                        s.append("None");
                    }
                }
                s.append(". [UNSATISFIED]");
                Ok(Some(s))
            }
        }
    }
}

} // verus!
