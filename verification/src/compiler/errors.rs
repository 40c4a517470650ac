//! Compiler diagnostics: source spans, the diagnostic record with its
//! builders, its two renderings (the verbose one with the source line and
//! a caret, and the one-line "whisper" form), and the messages of the
//! compiler's error kinds.

use vstd::prelude::*;
use crate::text::{
    owned, chars_of, string_of, push_decimal, decimal, push_chars, lines, lines_of, views, spaces, push_spaces,
    starts_with, starts_with_str, replace_all, replace_str,
};
use crate::scan::{utf8_len, byte_offset};

verus! {

/// A region of the source: byte offsets and the 1-based line and column of
/// its start.
#[derive(Debug, Clone, Copy, PartialEq, Eq)]
pub struct Span {
    pub start: usize,
    pub end: usize,
    pub line: usize,
    pub column: usize,
}

/// `n - 1`, or 0.
pub open spec fn pred_sat(n: nat) -> nat {
    if n == 0 { 0 } else { (n - 1) as nat }
}

/// `line:column`.
pub open spec fn span_text(sp: Span) -> Seq<char> {
    decimal(sp.line as nat) + ":"@ + decimal(sp.column as nat)
}

/// The location line, and where the line exists, the line and a caret
/// under the column.
pub open spec fn span_format_text(sp: Span, source: Seq<char>) -> Seq<char> {
    let ls = lines(source);
    if sp.line > 0 && sp.line <= ls.len() {
        " --> file:"@ + decimal(sp.line as nat) + ":"@ + decimal(sp.column as nat) + "\n  |\n"@
            + decimal(sp.line as nat) + " | "@ + ls[sp.line - 1] + "\n"@
            + decimal(sp.line as nat) + " | "@ + spaces(pred_sat(sp.column as nat)) + "^"@
    } else {
        " --> file:"@ + decimal(sp.line as nat) + ":"@ + decimal(sp.column as nat)
    }
}

fn push_usize(s: &mut String, n: usize)
    ensures
        final(s)@ == old(s)@ + decimal(n as nat),
{
    push_decimal(s, n as u64);
}

impl Span {
    pub fn new(start: usize, end: usize, line: usize, column: usize) -> (s: Self)
        ensures
            s == (Span { start, end, line, column }),
    {
        Span { start, end, line, column }
    }

    /// The span that points nowhere.
    pub fn dummy() -> (s: Self)
        ensures
            s == (Span { start: 0, end: 0, line: 0, column: 0 }),
    {
        Span { start: 0, end: 0, line: 0, column: 0 }
    }

    /// `line:column`.
    pub fn to_string(&self) -> (s: String)
        ensures
            s@ == span_text(*self),
    {
        let mut s = String::new();
        push_usize(&mut s, self.line);
        s.append(":");
        push_usize(&mut s, self.column);
        s
    }

    /// The location, with the source line and a caret when the line exists.
    pub fn format(&self, source: &str) -> (s: String)
        ensures
            s@ == span_format_text(*self, source@),
    {
        let src = chars_of(source);
        let ls = lines_of(src.as_slice());
        let mut s = owned(" --> file:");
        push_usize(&mut s, self.line);
        s.append(":");
        push_usize(&mut s, self.column);
        if self.line > 0 && self.line <= ls.len() {
            s.append("\n  |\n");
            push_usize(&mut s, self.line);
            s.append(" | ");
            assert(views(ls@)[self.line - 1] == ls@[self.line - 1]@);
            push_chars(&mut s, ls[self.line - 1].as_slice());
            s.append("\n");
            push_usize(&mut s, self.line);
            s.append(" | ");
            let pad: usize = if self.column > 0 { self.column - 1 } else { 0 };
            push_spaces(&mut s, pad);
            s.append("^");
        }
        s
    }
}

#[derive(Debug, Clone, Copy, PartialEq, Eq, Structural)]
pub enum ErrorMode {
    Verbose,
    Whisper,
}

#[derive(Debug, Clone, Copy, PartialEq, Eq, Structural)]
pub enum Severity {
    Error,
    Warning,
    Note,
    Info,
}

pub open spec fn severity_word(s: Severity) -> Seq<char> {
    match s {
        Severity::Error => "error"@,
        Severity::Warning => "warning"@,
        Severity::Note => "note"@,
        Severity::Info => "info"@,
    }
}

fn severity_str(s: Severity) -> (r: &'static str)
    ensures
        r@ == severity_word(s),
{
    match s {
        Severity::Error => "error",
        Severity::Warning => "warning",
        Severity::Note => "note",
        Severity::Info => "info",
    }
}

/// A diagnostic: a code, a severity, a title, where it points, and the
/// explanation, proof steps, examples, hints and notes that go with it.
#[derive(Debug, Clone)]
pub struct Diagnostic {
    pub code: String,
    pub severity: Severity,
    pub title: String,
    pub span: Option<Span>,
    pub source_snippet: Option<String>,
    pub explanation: Vec<String>,
    pub proof_chain: Vec<String>,
    pub examples: Vec<String>,
    pub hints: Vec<String>,
    pub notes: Vec<String>,
}

pub struct DiagnosticV {
    pub code: Seq<char>,
    pub severity: Severity,
    pub title: Seq<char>,
    pub span: Option<Span>,
    pub source_snippet: Option<Seq<char>>,
    pub explanation: Seq<Seq<char>>,
    pub proof_chain: Seq<Seq<char>>,
    pub examples: Seq<Seq<char>>,
    pub hints: Seq<Seq<char>>,
    pub notes: Seq<Seq<char>>,
}

pub open spec fn strs(v: Seq<String>) -> Seq<Seq<char>> {
    v.map_values(|s: String| s@)
}

impl View for Diagnostic {
    type V = DiagnosticV;

    open spec fn view(&self) -> DiagnosticV {
        DiagnosticV {
            code: self.code@,
            severity: self.severity,
            title: self.title@,
            span: self.span,
            source_snippet: match self.source_snippet {
                Some(s) => Some(s@),
                None => None,
            },
            explanation: strs(self.explanation@),
            proof_chain: strs(self.proof_chain@),
            examples: strs(self.examples@),
            hints: strs(self.hints@),
            notes: strs(self.notes@),
        }
    }
}

// ---------------------------------------------------------------------------
// The verbose rendering

/// Each item between `pre` and `post`.
pub open spec fn each_line(items: Seq<Seq<char>>, pre: Seq<char>, post: Seq<char>) -> Seq<char>
    decreases items.len(),
{
    if items.len() == 0 {
        Seq::empty()
    } else {
        each_line(items.drop_last(), pre, post) + pre + items.last() + post
    }
}

/// The first line: severity, title and code, then the location if there is one.
pub open spec fn header_text(d: DiagnosticV, file: Seq<char>) -> Seq<char> {
    severity_word(d.severity) + ": "@ + d.title + " ["@ + d.code + (if d.code.len() == 0 { Seq::empty() } else { ", "@ })
        + "]\n"@ + match d.span {
        Some(sp) => " --> "@ + file + ":"@ + span_text(sp) + "\n"@,
        None => Seq::empty(),
    }
}

/// For an error that points at an existing line: that line, numbered, and a
/// caret under the column.
pub open spec fn snippet_text(d: DiagnosticV, source: Seq<char>) -> Seq<char> {
    match d.span {
        Some(sp) => if d.severity == Severity::Error && sp.line > 0 && sp.line <= lines(source).len() {
            let num = decimal(sp.line as nat);
            "  |\n"@ + num + " | "@ + lines(source)[sp.line - 1] + "\n"@ + spaces(num.len()) + " | "@
                + spaces(pred_sat(sp.column as nat)) + "^\n"@
        } else {
            Seq::empty()
        },
        None => Seq::empty(),
    }
}

/// The proof steps, the first one indented less than the rest.
pub open spec fn proof_steps(steps: Seq<Seq<char>>) -> Seq<char>
    decreases steps.len(),
{
    if steps.len() == 0 {
        Seq::empty()
    } else {
        proof_steps(steps.drop_last()) + (if steps.len() == 1 { "  =   "@ } else { "  =     "@ }) + "\u{2022} "@
            + steps.last() + "\n"@
    }
}

/// A titled section, left out when it has nothing in it.
pub open spec fn section(items: Seq<Seq<char>>, title: Seq<char>, body: Seq<char>) -> Seq<char> {
    if items.len() == 0 {
        Seq::empty()
    } else {
        title + body
    }
}

/// The verbose rendering of a diagnostic.
pub open spec fn verbose_text(d: DiagnosticV, source: Seq<char>, file: Seq<char>) -> Seq<char> {
    header_text(d, file) + snippet_text(d, source) + each_line(d.explanation, "  |\n  = "@, "\n"@)
        + section(d.proof_chain, "  |\n  = proof:\n"@, proof_steps(d.proof_chain))
        + section(d.examples, "  |\n  = example failure:\n"@, each_line(d.examples, "  =   "@, "\n"@))
        + section(d.hints, "  |\n  = hint:"@, each_line(d.hints, " "@, "\n"@))
        + section(d.notes, "  |\n"@, each_line(d.notes, "  = note: "@, "\n"@))
}

fn push_each(out: &mut String, items: &Vec<String>, pre: &str, post: &str)
    ensures
        final(out)@ == old(out)@ + each_line(strs(items@), pre@, post@),
{
    let ghost start = out@;
    let ghost sv = strs(items@);
    let mut i: usize = 0;
    while i < items.len()
        invariant
            i <= items@.len(),
            sv == strs(items@),
            out@ == start + each_line(sv.subrange(0, i as int), pre@, post@),
        decreases items@.len() - i,
    {
        out.append(pre);
        out.append(items[i].as_str());
        out.append(post);
        proof {
            assert(sv.subrange(0, i + 1).drop_last() =~= sv.subrange(0, i as int));
            assert(sv.subrange(0, i + 1).last() == items@[i as int]@);
        }
        i = i + 1;
    }
    assert(sv.subrange(0, items@.len() as int) =~= sv);
}

fn push_proof_steps(out: &mut String, steps: &Vec<String>)
    ensures
        final(out)@ == old(out)@ + proof_steps(strs(steps@)),
{
    let ghost start = out@;
    let ghost sv = strs(steps@);
    let mut i: usize = 0;
    while i < steps.len()
        invariant
            i <= steps@.len(),
            sv == strs(steps@),
            out@ == start + proof_steps(sv.subrange(0, i as int)),
        decreases steps@.len() - i,
    {
        if i == 0 {
            out.append("  =   ");
        } else {
            out.append("  =     ");
        }
        out.append("\u{2022} ");
        out.append(steps[i].as_str());
        out.append("\n");
        proof {
            assert(sv.subrange(0, i + 1).drop_last() =~= sv.subrange(0, i as int));
            assert(sv.subrange(0, i + 1).last() == steps@[i as int]@);
        }
        i = i + 1;
    }
    assert(sv.subrange(0, steps@.len() as int) =~= sv);
}

// ---------------------------------------------------------------------------
// The one-line rendering

/// The number of UTF-8 bytes of a text.
pub open spec fn byte_len(s: Seq<char>) -> nat {
    byte_offset(s, s.len() as int)
}

/// The longest prefix of `s` that fits in `b` bytes of UTF-8.
pub open spec fn prefix_in_bytes(s: Seq<char>, b: nat) -> Seq<char>
    decreases s.len(),
{
    if s.len() == 0 || utf8_len(s[0]) > b {
        Seq::empty()
    } else {
        seq![s[0]] + prefix_in_bytes(s.drop_first(), (b - utf8_len(s[0])) as nat)
    }
}

/// Byte `b` of `s` starts a character (or ends the text).
pub open spec fn is_boundary(s: Seq<char>, b: nat) -> bool
    decreases s.len(),
{
    if b == 0 {
        true
    } else if s.len() == 0 || utf8_len(s[0]) > b {
        false
    } else {
        is_boundary(s.drop_first(), (b - utf8_len(s[0])) as nat)
    }
}

/// The first explanation as the one-line form shows it: cut to its first
/// 50 bytes when it is longer.
pub open spec fn short_explanation(s: Seq<char>) -> Seq<char> {
    if byte_len(s) > 50 { prefix_in_bytes(s, 50) } else { s }
}

/// The first hint as the one-line form shows it: "did you mean 'x'?"
/// becomes "try: x"; any other hint is cut to 40 characters.
pub open spec fn short_hint(h: Seq<char>) -> Seq<char> {
    if starts_with(h, "did you mean"@) {
        replace_all(replace_all(replace_all(h, "did you mean "@, "try: "@), "'"@, ""@), "?"@, ""@)
    } else if h.len() > 40 {
        h.subrange(0, 40)
    } else {
        h
    }
}

/// The parts of the one-line form, in order.
pub open spec fn whisper_parts(d: DiagnosticV, file: Seq<char>) -> Seq<Seq<char>> {
    (match d.span {
        Some(sp) => seq![file + ":"@ + decimal(sp.line as nat) + ":"@ + decimal(sp.column as nat)],
        None => Seq::empty(),
    }) + seq!["["@ + d.code + "]"@, d.title]
        + (if d.explanation.len() > 0 && short_explanation(d.explanation[0]).len() > 0 {
        seq!["("@ + short_explanation(d.explanation[0]) + ")"@]
    } else {
        Seq::empty()
    }) + (if d.hints.len() > 0 {
        seq![short_hint(d.hints[0])]
    } else {
        Seq::empty()
    })
}

/// The parts, separated by single spaces.
pub open spec fn join_spaced(parts: Seq<Seq<char>>) -> Seq<char>
    decreases parts.len(),
{
    if parts.len() == 0 {
        Seq::empty()
    } else if parts.len() == 1 {
        parts[0]
    } else {
        join_spaced(parts.drop_last()) + " "@ + parts.last()
    }
}

/// The one-line rendering of a diagnostic.
pub open spec fn whisper_text(d: DiagnosticV, file: Seq<char>) -> Seq<char> {
    severity_word(d.severity) + " "@ + join_spaced(whisper_parts(d, file)) + "\n"@
}

/// The one-line form can cut the first explanation: its 50th byte must end
/// a character.
pub open spec fn whisper_ok(d: DiagnosticV) -> bool {
    d.explanation.len() > 0 && byte_len(d.explanation[0]) > 50 ==> is_boundary(d.explanation[0], 50)
}

fn cut_to_bytes(s: &[char], b: usize) -> (r: Vec<char>)
    ensures
        r@ == prefix_in_bytes(s@, b as nat),
{
    let mut out: Vec<char> = Vec::new();
    let mut i: usize = 0;
    let mut rem: usize = b;
    let n = s.len();
    assert(s@.subrange(0, n as int) =~= s@);
    while i < n
        invariant
            n == s@.len(),
            i <= n,
            rem <= b,
            prefix_in_bytes(s@, b as nat) == out@ + prefix_in_bytes(s@.subrange(i as int, n as int), rem as nat),
        decreases n - i,
    {
        let c = s[i];
        let cu = c as u32;
        let w: usize = if cu < 0x80 { 1 } else if cu < 0x800 { 2 } else if cu < 0x10000 { 3 } else { 4 };
        let ghost rest = s@.subrange(i as int, n as int);
        assert(rest[0] == c);
        assert(rest.drop_first() =~= s@.subrange(i + 1, n as int));
        if w > rem {
            assert(prefix_in_bytes(rest, rem as nat) =~= Seq::<char>::empty());
            assert(out@ + Seq::<char>::empty() =~= out@);
            return out;
        }
        let ghost before = out@;
        out.push(c);
        assert(before + (seq![c] + prefix_in_bytes(s@.subrange(i + 1, n as int), (rem - w) as nat))
            =~= out@ + prefix_in_bytes(s@.subrange(i + 1, n as int), (rem - w) as nat));
        rem = rem - w;
        i = i + 1;
    }
    assert(s@.subrange(n as int, n as int) =~= Seq::<char>::empty());
    assert(out@ + Seq::<char>::empty() =~= out@);
    out
}

fn short_hint_exec(h: &String) -> (r: Vec<char>)
    ensures
        r@ == short_hint(h@),
{
    let hv = chars_of(h.as_str());
    proof {
        reveal_strlit("did you mean ");
        reveal_strlit("'");
        reveal_strlit("?");
    }
    if starts_with_str(hv.as_slice(), "did you mean") {
        let a = replace_str(hv.as_slice(), "did you mean ", "try: ");
        let b = replace_str(a.as_slice(), "'", "");
        replace_str(b.as_slice(), "?", "")
    } else if hv.len() > 40 {
        crate::text::copy_chars(&hv.as_slice()[0..40])
    } else {
        hv
    }
}

proof fn lemma_join_push(parts: Seq<Seq<char>>, p: Seq<char>)
    ensures
        join_spaced(parts.push(p)) == if parts.len() == 0 { p } else { join_spaced(parts) + " "@ + p },
{
    assert(parts.push(p).drop_last() =~= parts);
}

impl Diagnostic {
    /// A diagnostic with only a code, a severity and a title.
    pub fn new(code: &str, severity: Severity, title: &str) -> (d: Self)
        ensures
            d@ == (DiagnosticV {
                code: code@,
                severity,
                title: title@,
                span: None,
                source_snippet: None,
                explanation: seq![],
                proof_chain: seq![],
                examples: seq![],
                hints: seq![],
                notes: seq![],
            }),
    {
        let d = Diagnostic {
            code: owned(code),
            severity,
            title: owned(title),
            span: None,
            source_snippet: None,
            explanation: Vec::new(),
            proof_chain: Vec::new(),
            examples: Vec::new(),
            hints: Vec::new(),
            notes: Vec::new(),
        };
        assert(strs(d.explanation@) =~= Seq::<Seq<char>>::empty());
        assert(strs(d.proof_chain@) =~= Seq::<Seq<char>>::empty());
        assert(strs(d.examples@) =~= Seq::<Seq<char>>::empty());
        assert(strs(d.hints@) =~= Seq::<Seq<char>>::empty());
        assert(strs(d.notes@) =~= Seq::<Seq<char>>::empty());
        d
    }

    pub fn with_span(self, span: Span) -> (d: Self)
        ensures
            d@ == (DiagnosticV { span: Some(span), ..self@ }),
    {
        let mut d = self;
        d.span = Some(span);
        d
    }

    /// Adds a line of explanation.
    pub fn with_explanation(self, text: &str) -> (d: Self)
        ensures
            d@ == (DiagnosticV { explanation: self@.explanation.push(text@), ..self@ }),
    {
        let mut d = self;
        d.explanation.push(owned(text));
        assert(strs(d.explanation@) =~= strs(self.explanation@).push(text@));
        d
    }

    /// Adds a step to the proof chain.
    pub fn with_proof_step(self, step: &str) -> (d: Self)
        ensures
            d@ == (DiagnosticV { proof_chain: self@.proof_chain.push(step@), ..self@ }),
    {
        let mut d = self;
        d.proof_chain.push(owned(step));
        assert(strs(d.proof_chain@) =~= strs(self.proof_chain@).push(step@));
        d
    }

    pub fn with_example(self, example: &str) -> (d: Self)
        ensures
            d@ == (DiagnosticV { examples: self@.examples.push(example@), ..self@ }),
    {
        let mut d = self;
        d.examples.push(owned(example));
        assert(strs(d.examples@) =~= strs(self.examples@).push(example@));
        d
    }

    pub fn with_hint(self, hint: &str) -> (d: Self)
        ensures
            d@ == (DiagnosticV { hints: self@.hints.push(hint@), ..self@ }),
    {
        let mut d = self;
        d.hints.push(owned(hint));
        assert(strs(d.hints@) =~= strs(self.hints@).push(hint@));
        d
    }

    pub fn with_note(self, note: &str) -> (d: Self)
        ensures
            d@ == (DiagnosticV { notes: self@.notes.push(note@), ..self@ }),
    {
        let mut d = self;
        d.notes.push(owned(note));
        assert(strs(d.notes@) =~= strs(self.notes@).push(note@));
        d
    }

    /// The verbose rendering.
    pub fn format(&self, source: &str, file_name: &str) -> (s: String)
        ensures
            s@ == verbose_text(self@, source@, file_name@),
    {
        self.format_verbose(source, file_name)
    }

    /// The rendering `mode` asks for.
    pub fn format_with_mode(&self, source: &str, file_name: &str, mode: ErrorMode) -> (s: String)
        requires
            mode == ErrorMode::Whisper ==> whisper_ok(self@),
        ensures
            s@ == match mode {
                ErrorMode::Verbose => verbose_text(self@, source@, file_name@),
                ErrorMode::Whisper => whisper_text(self@, file_name@),
            },
    {
        match mode {
            ErrorMode::Verbose => self.format_verbose(source, file_name),
            ErrorMode::Whisper => self.format_whisper(source, file_name),
        }
    }

    /// Severity, title and code; the location; for an error, the source
    /// line with a caret; then the explanation, proof, examples, hints and
    /// notes, each section only when it has something.
    pub fn format_verbose(&self, source: &str, file_name: &str) -> (s: String)
        ensures
            s@ == verbose_text(self@, source@, file_name@),
    {
        let ghost d = self@;
        let mut out = self.header(file_name);
        self.push_snippet(&mut out, source);
        let ghost hs = out@;
        push_each(&mut out, &self.explanation, "  |\n  = ", "\n");
        self.push_sections(&mut out);
        out
    }

    fn header(&self, file_name: &str) -> (out: String)
        ensures
            out@ == header_text(self@, file_name@),
    {
        let mut out = owned(severity_str(self.severity));
        out.append(": ");
        out.append(self.title.as_str());
        out.append(" [");
        out.append(self.code.as_str());
        if self.code.as_str().unicode_len() > 0 {
            out.append(", ");
        }
        out.append("]\n");
        match &self.span {
            Some(sp) => {
                out.append(" --> ");
                out.append(file_name);
                out.append(":");
                let t = sp.to_string();
                out.append(t.as_str());
                out.append("\n");
            }
            None => {}
        }
        assert(out@ =~= header_text(self@, file_name@));
        out
    }

    fn push_snippet(&self, out: &mut String, source: &str)
        ensures
            final(out)@ == old(out)@ + snippet_text(self@, source@),
    {
        let ghost h = out@;
        match &self.span {
            Some(sp) => {
                if self.severity == Severity::Error {
                    let src = chars_of(source);
                    let ls = lines_of(src.as_slice());
                    if sp.line > 0 && sp.line <= ls.len() {
                        let mut num = String::new();
                        push_usize(&mut num, sp.line);
                        out.append("  |\n");
                        out.append(num.as_str());
                        out.append(" | ");
                        assert(views(ls@)[sp.line - 1] == ls@[sp.line - 1]@);
                        push_chars(out, ls[sp.line - 1].as_slice());
                        out.append("\n");
                        push_spaces(out, num.as_str().unicode_len());
                        out.append(" | ");
                        let pad: usize = if sp.column > 0 { sp.column - 1 } else { 0 };
                        push_spaces(out, pad);
                        out.append("^\n");
                    }
                }
            }
            None => {}
        }
        assert(out@ =~= h + snippet_text(self@, source@));
    }

    fn push_sections(&self, out: &mut String)
        ensures
            final(out)@ == old(out)@ + section(self@.proof_chain, "  |\n  = proof:\n"@, proof_steps(self@.proof_chain))
                + section(self@.examples, "  |\n  = example failure:\n"@, each_line(self@.examples, "  =   "@, "\n"@))
                + section(self@.hints, "  |\n  = hint:"@, each_line(self@.hints, " "@, "\n"@))
                + section(self@.notes, "  |\n"@, each_line(self@.notes, "  = note: "@, "\n"@)),
    {
        let ghost d = self@;
        let ghost he = out@;
        if self.proof_chain.len() > 0 {
            out.append("  |\n  = proof:\n");
            push_proof_steps(out, &self.proof_chain);
        }
        assert(out@ =~= he + section(d.proof_chain, "  |\n  = proof:\n"@, proof_steps(d.proof_chain)));
        let ghost hp = out@;
        if self.examples.len() > 0 {
            out.append("  |\n  = example failure:\n");
            push_each(out, &self.examples, "  =   ", "\n");
        }
        assert(out@ =~= hp + section(d.examples, "  |\n  = example failure:\n"@, each_line(d.examples, "  =   "@, "\n"@)));
        let ghost hx = out@;
        if self.hints.len() > 0 {
            out.append("  |\n  = hint:");
            push_each(out, &self.hints, " ", "\n");
        }
        assert(out@ =~= hx + section(d.hints, "  |\n  = hint:"@, each_line(d.hints, " "@, "\n"@)));
        let ghost hh = out@;
        if self.notes.len() > 0 {
            out.append("  |\n");
            push_each(out, &self.notes, "  = note: ", "\n");
        }
        assert(out@ =~= hh + section(d.notes, "  |\n"@, each_line(d.notes, "  = note: "@, "\n"@)));
    }

    /// The location, `[code]`, the title, the first explanation in brackets
    /// and the first hint, on one line after the severity.
    pub fn format_whisper(&self, source: &str, file_name: &str) -> (s: String)
        requires
            whisper_ok(self@),
        ensures
            s@ == whisper_text(self@, file_name@),
    {
        let ghost d = self@;
        let mut parts: Vec<Vec<char>> = Vec::new();
        match &self.span {
            Some(sp) => {
                let mut p = owned(file_name);
                p.append(":");
                push_usize(&mut p, sp.line);
                p.append(":");
                push_usize(&mut p, sp.column);
                parts.push(chars_of(p.as_str()));
            }
            None => {}
        }
        let mut c = owned("[");
        c.append(self.code.as_str());
        c.append("]");
        parts.push(chars_of(c.as_str()));
        parts.push(chars_of(self.title.as_str()));
        if self.explanation.len() > 0 {
            let first = chars_of(self.explanation[0].as_str());
            let hint = if more_bytes_than(first.as_slice(), 50) { cut_to_bytes(first.as_slice(), 50) } else { first };
            assert(hint@ == short_explanation(d.explanation[0]));
            if hint.len() > 0 {
                let mut p = owned("(");
                push_chars(&mut p, hint.as_slice());
                p.append(")");
                parts.push(chars_of(p.as_str()));
            }
        }
        if self.hints.len() > 0 {
            assert(d.hints[0] == self.hints@[0]@);
            parts.push(short_hint_exec(&self.hints[0]));
        }
        assert(views(parts@) =~= whisper_parts(d, file_name@));
        let mut out = owned(severity_str(self.severity));
        out.append(" ");
        let ghost pv = views(parts@);
        let mut i: usize = 0;
        let ghost base = out@;
        while i < parts.len()
            invariant
                i <= parts@.len(),
                pv == views(parts@),
                out@ == base + join_spaced(pv.subrange(0, i as int)),
            decreases parts@.len() - i,
        {
            proof { lemma_join_push(pv.subrange(0, i as int), pv[i as int]); }
            assert(pv.subrange(0, i + 1) =~= pv.subrange(0, i as int).push(pv[i as int]));
            if i > 0 {
                out.append(" ");
            }
            push_chars(&mut out, parts[i].as_slice());
            i = i + 1;
        }
        assert(pv.subrange(0, parts@.len() as int) =~= pv);
        out.append("\n");
        out
    }
}

proof fn lemma_byte_offset_mono(s: Seq<char>, i: int, j: int)
    requires
        0 <= i <= j <= s.len(),
    ensures
        byte_offset(s, i) <= byte_offset(s, j),
    decreases j - i,
{
    if i < j {
        lemma_byte_offset_mono(s, i, j - 1);
    }
}

/// Whether the text takes more than `b` bytes of UTF-8.
fn more_bytes_than(s: &[char], b: usize) -> (r: bool)
    requires
        b <= 1000,
    ensures
        r == (byte_len(s@) > b),
{
    let mut k: usize = 0;
    let mut acc: usize = 0;
    while k < s.len()
        invariant
            k <= s@.len(),
            acc as nat == byte_offset(s@, k as int),
            acc <= b,
            b <= 1000,
        decreases s@.len() - k,
    {
        let cu = s[k] as u32;
        let w: usize = if cu < 0x80 { 1 } else if cu < 0x800 { 2 } else if cu < 0x10000 { 3 } else { 4 };
        acc = acc + w;
        k = k + 1;
        if acc > b {
            proof { lemma_byte_offset_mono(s@, k as int, s@.len() as int); }
            return true;
        }
    }
    false
}

// ---------------------------------------------------------------------------
// Error kinds

#[derive(Debug, Clone)]
pub enum TypeError {
    UndefinedVariable { name: String, available: Vec<String> },
    TypeMismatch { expected: String, found: String, context: String },
    UninitializedSignal { name: String },
    OwnershipViolation { var: String, reason: String },
    InvalidOperation { operation: String, ty_name: String },
    FFIError { message: String },
}

pub open spec fn type_error_text(e: TypeError) -> Seq<char> {
    match e {
        TypeError::UndefinedVariable { name, .. } => "undefined variable '"@ + name@ + "'"@,
        TypeError::TypeMismatch { expected, found, context } =>
            "type mismatch: expected "@ + expected@ + " for "@ + context@ + ", found "@ + found@,
        TypeError::UninitializedSignal { name } => "signal '"@ + name@ + "' has no initial value"@,
        TypeError::OwnershipViolation { var, reason } => "ownership violation on '"@ + var@ + "': "@ + reason@,
        TypeError::InvalidOperation { operation, ty_name } =>
            "invalid operation '"@ + operation@ + "' on type "@ + ty_name@,
        TypeError::FFIError { message } => "FFI error: "@ + message@,
    }
}

impl TypeError {
    pub fn message(&self) -> (s: String)
        ensures
            s@ == type_error_text(*self),
    {
        match self {
            TypeError::UndefinedVariable { name, .. } => {
                let mut s = owned("undefined variable '");
                s.append(name.as_str());
                s.append("'");
                s
            }
            TypeError::TypeMismatch { expected, found, context } => {
                let mut s = owned("type mismatch: expected ");
                s.append(expected.as_str());
                s.append(" for ");
                s.append(context.as_str());
                s.append(", found ");
                s.append(found.as_str());
                s
            }
            TypeError::UninitializedSignal { name } => {
                let mut s = owned("signal '");
                s.append(name.as_str());
                s.append("' has no initial value");
                s
            }
            TypeError::OwnershipViolation { var, reason } => {
                let mut s = owned("ownership violation on '");
                s.append(var.as_str());
                s.append("': ");
                s.append(reason.as_str());
                s
            }
            TypeError::InvalidOperation { operation, ty_name } => {
                let mut s = owned("invalid operation '");
                s.append(operation.as_str());
                s.append("' on type ");
                s.append(ty_name.as_str());
                s
            }
            TypeError::FFIError { message } => {
                let mut s = owned("FFI error: ");
                s.append(message.as_str());
                s
            }
        }
    }
}

/// What the proof engine found wrong with a program.
#[derive(Debug, Clone)]
pub enum ProofError {
    UnreachableState { transaction: String, precondition: String, reason: String, proof_trace: Vec<String>, span: Span },
    PostconditionUnsatisfiable {
        transaction: String,
        postcondition: String,
        reason: String,
        example_values: Vec<String>,
        suggestion: String,
        span: Span,
    },
    NoAcceptingPath { transaction: String, reason: String, rollback_count: usize, span: Span },
    MutualExclusionViolation { txn1: String, txn2: String, shared_vars: Vec<String>, conflict_description: String, span: Span },
    UnhandledOutcome { signature: String, union_type: String, missing_variants: Vec<String>, span: Span },
    TrueAssertionFailure { signature: String, reason: String, proof_steps: Vec<String>, span: Span },
    CircularDependency { transactions: Vec<String>, call_chain: Vec<String>, span: Span },
    ImpossiblePrecondition { condition: String, contradiction: String, span: Span },
    PostconditionMutationViolation { transaction: String, postcondition: String, mutation: String, explanation: String, span: Span },
    TrivialPrecondition { item_name: String, item_type: String, span: Span },
    TrivialPostcondition { item_name: String, item_type: String, span: Span },
}

pub open spec fn proof_error_text(e: ProofError) -> Seq<char> {
    match e {
        ProofError::UnreachableState { transaction, .. } => "transaction '"@ + transaction@ + "' has unreachable precondition"@,
        ProofError::PostconditionUnsatisfiable { transaction, .. } =>
            "transaction '"@ + transaction@ + "' postcondition cannot be satisfied"@,
        ProofError::NoAcceptingPath { transaction, .. } => "transaction '"@ + transaction@ + "' has no valid termination"@,
        ProofError::MutualExclusionViolation { txn1, txn2, .. } =>
            "transactions '"@ + txn1@ + "' and '"@ + txn2@ + "' have unsafe concurrent access"@,
        ProofError::UnhandledOutcome { signature, .. } => "unhandled outcome for signature '"@ + signature@ + "'"@,
        ProofError::TrueAssertionFailure { signature, .. } => "true assertion failed for signature '"@ + signature@ + "'"@,
        ProofError::CircularDependency { .. } => "circular transaction dependency detected"@,
        ProofError::ImpossiblePrecondition { condition, .. } => "precondition '"@ + condition@ + "' is impossible to satisfy"@,
        ProofError::PostconditionMutationViolation { transaction, .. } =>
            "transaction '"@ + transaction@ + "' postcondition references mutated state incorrectly"@,
        ProofError::TrivialPrecondition { item_name, item_type, .. } =>
            item_type@ + " '"@ + item_name@ + "' has a trivial precondition '[true]'"@,
        ProofError::TrivialPostcondition { item_name, item_type, .. } =>
            item_type@ + " '"@ + item_name@ + "' has a trivial postcondition '[true]'"@,
    }
}

fn prefixed(pre: &str, name: &String) -> (s: String)
    ensures
        s@ == pre@ + name@,
{
    let mut s = owned(pre);
    s.append(name.as_str());
    s
}

fn quoted(pre: &str, name: &String, post: &str) -> (s: String)
    ensures
        s@ == pre@ + name@ + post@,
{
    let mut s = owned(pre);
    s.append(name.as_str());
    s.append(post);
    s
}

impl ProofError {
    pub fn message(&self) -> (s: String)
        ensures
            s@ == proof_error_text(*self),
    {
        match self {
            ProofError::UnreachableState { transaction, .. } =>
                quoted("transaction '", transaction, "' has unreachable precondition"),
            ProofError::PostconditionUnsatisfiable { transaction, .. } =>
                quoted("transaction '", transaction, "' postcondition cannot be satisfied"),
            ProofError::NoAcceptingPath { transaction, .. } => quoted("transaction '", transaction, "' has no valid termination"),
            ProofError::MutualExclusionViolation { txn1, txn2, .. } => {
                let mut s = quoted("transactions '", txn1, "' and '");
                s.append(txn2.as_str());
                s.append("' have unsafe concurrent access");
                s
            }
            ProofError::UnhandledOutcome { signature, .. } => quoted("unhandled outcome for signature '", signature, "'"),
            ProofError::TrueAssertionFailure { signature, .. } => quoted("true assertion failed for signature '", signature, "'"),
            ProofError::CircularDependency { .. } => owned("circular transaction dependency detected"),
            ProofError::ImpossiblePrecondition { condition, .. } =>
                quoted("precondition '", condition, "' is impossible to satisfy"),
            ProofError::PostconditionMutationViolation { transaction, .. } =>
                quoted("transaction '", transaction, "' postcondition references mutated state incorrectly"),
            ProofError::TrivialPrecondition { item_name, item_type, .. } => {
                let mut s = item_type.clone();
                s.append(" '");
                s.append(item_name.as_str());
                s.append("' has a trivial precondition '[true]'");
                s
            }
            ProofError::TrivialPostcondition { item_name, item_type, .. } => {
                let mut s = item_type.clone();
                s.append(" '");
                s.append(item_name.as_str());
                s.append("' has a trivial postcondition '[true]'");
                s
            }
        }
    }
}

#[derive(Debug, Clone)]
pub enum SyntaxError {
    UnexpectedToken { expected: String, found: String, span: Span },
    UnexpectedEOF { expected: String, span: Span },
    InvalidExpression { reason: String, span: Span },
    InvalidStatement { reason: String, span: Span },
    InvalidType { ty_name: String, span: Span },
}

pub open spec fn syntax_error_text(e: SyntaxError) -> Seq<char> {
    match e {
        SyntaxError::UnexpectedToken { expected, found, .. } => "expected "@ + expected@ + ", found '"@ + found@ + "'"@,
        SyntaxError::UnexpectedEOF { expected, .. } => "expected "@ + expected@ + ", found end of file"@,
        SyntaxError::InvalidExpression { reason, .. } => "invalid expression: "@ + reason@,
        SyntaxError::InvalidStatement { reason, .. } => "invalid statement: "@ + reason@,
        SyntaxError::InvalidType { ty_name, .. } => "invalid type: '"@ + ty_name@ + "'"@,
    }
}

impl SyntaxError {
    pub fn message(&self) -> (s: String)
        ensures
            s@ == syntax_error_text(*self),
    {
        match self {
            SyntaxError::UnexpectedToken { expected, found, .. } => {
                let mut s = quoted("expected ", expected, ", found '");
                s.append(found.as_str());
                s.append("'");
                s
            }
            SyntaxError::UnexpectedEOF { expected, .. } => quoted("expected ", expected, ", found end of file"),
            SyntaxError::InvalidExpression { reason, .. } => prefixed("invalid expression: ", reason),
            SyntaxError::InvalidStatement { reason, .. } => prefixed("invalid statement: ", reason),
            SyntaxError::InvalidType { ty_name, .. } => quoted("invalid type: '", ty_name, "'"),
        }
    }

    /// A message becomes an invalid statement that points nowhere.
    pub fn from_message(s: String) -> (e: Self)
        ensures
            e matches SyntaxError::InvalidStatement { reason, span } && reason@ == s@
                && span == (Span { start: 0, end: 0, line: 0, column: 0 }),
    {
        SyntaxError::InvalidStatement { reason: s, span: Span::dummy() }
    }
}

#[derive(Debug, Clone)]
pub enum ImportError {
    ModuleNotFound { module: String, search_paths: Vec<String>, span: Span },
    CircularImport { module: String, import_chain: Vec<String>, span: Span },
    InvalidImport { reason: String, span: Span },
}

pub open spec fn import_error_text(e: ImportError) -> Seq<char> {
    match e {
        ImportError::ModuleNotFound { module, .. } => "module '"@ + module@ + "' not found"@,
        ImportError::CircularImport { module, .. } => "circular import detected for module '"@ + module@ + "'"@,
        ImportError::InvalidImport { reason, .. } => "invalid import: "@ + reason@,
    }
}

impl ImportError {
    pub fn message(&self) -> (s: String)
        ensures
            s@ == import_error_text(*self),
    {
        match self {
            ImportError::ModuleNotFound { module, .. } => quoted("module '", module, "' not found"),
            ImportError::CircularImport { module, .. } => quoted("circular import detected for module '", module, "'"),
            ImportError::InvalidImport { reason, .. } => prefixed("invalid import: ", reason),
        }
    }
}

#[derive(Debug, Clone)]
pub enum ContractError {
    PreconditionUnsatisfiable { condition: String, proof: String, span: Span },
    PostconditionUnsatisfiable { condition: String, proof: String, span: Span },
    GuardViolation { guard: String, explanation: String, span: Span },
}

pub open spec fn contract_error_text(e: ContractError) -> Seq<char> {
    match e {
        ContractError::PreconditionUnsatisfiable { condition, .. } => "precondition '"@ + condition@ + "' can never be true"@,
        ContractError::PostconditionUnsatisfiable { condition, .. } => "postcondition '"@ + condition@ + "' can never be true"@,
        ContractError::GuardViolation { guard, .. } => "guard '"@ + guard@ + "' violation"@,
    }
}

impl ContractError {
    pub fn message(&self) -> (s: String)
        ensures
            s@ == contract_error_text(*self),
    {
        match self {
            ContractError::PreconditionUnsatisfiable { condition, .. } => quoted("precondition '", condition, "' can never be true"),
            ContractError::PostconditionUnsatisfiable { condition, .. } => quoted("postcondition '", condition, "' can never be true"),
            ContractError::GuardViolation { guard, .. } => quoted("guard '", guard, "' violation"),
        }
    }
}

} // verus!
