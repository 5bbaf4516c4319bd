//! Laws of the prompt compiler, stated over the scanner model and proved
//! once for every template.

use vstd::prelude::*;
use crate::prompt::{
    DirectiveKind, ScanState, Scanner, compile, dec_chars, escape_chars, initial_scanner,
    joined_codes, run_codes, scan, scan_from, step,
};

verus! {

// ---------------------------------------------------------------------------
// Literal templates
// ---------------------------------------------------------------------------

/// Holds when a template contains none of the three directive markers, and
/// so no directive syntax at all.
pub open spec fn marker_free(s: Seq<char>) -> bool {
    forall|i: int| 0 <= i < s.len() ==> s[i] != '%' && s[i] != 'B' && s[i] != 'F'
}

/// Scanning marker-free text from an idle scanner with nothing pending
/// passes every character straight through.
proof fn lemma_scan_from_literals(sc: Scanner, s: Seq<char>)
    requires
        sc.state == ScanState::Idle,
        sc.run.len() == 0,
        marker_free(s),
    ensures
        scan_from(sc, s) == (Scanner {
            state: ScanState::Idle,
            buf: sc.buf,
            run: sc.run,
            out: sc.out + s,
        }),
    decreases s.len(),
{
    if s.len() == 0 {
        assert(sc.out + s =~= sc.out);
        assert(sc.run =~= Seq::<(DirectiveKind, Seq<char>)>::empty());
    } else {
        lemma_scan_from_literals(sc, s.drop_last());
        assert(sc.out + s =~= (sc.out + s.drop_last()).push(s.last()));
    }
}

/// A template containing no directive markers compiles to itself,
/// character for character.
pub proof fn lemma_marker_free_identity(s: Seq<char>)
    requires
        marker_free(s),
    ensures
        compile(s) == s,
{
    lemma_scan_from_literals(initial_scanner(), s);
    assert(Seq::<char>::empty() + s =~= s);
}

// ---------------------------------------------------------------------------
// Compiled output carries no directive syntax
// ---------------------------------------------------------------------------

/// Decimal renderings consist of digits only, never a directive marker.
proof fn lemma_dec_chars_marker_free(n: nat)
    ensures
        marker_free(dec_chars(n)),
    decreases n,
{
    if n < 10 {
    } else {
        lemma_dec_chars_marker_free(n / 10);
    }
}

/// Joined code lists contain digits and separators only.
proof fn lemma_joined_codes_marker_free(codes: Seq<u8>)
    ensures
        marker_free(joined_codes(codes)),
    decreases codes.len(),
{
    if codes.len() == 0 {
    } else if codes.len() == 1 {
        lemma_dec_chars_marker_free(codes[0] as nat);
    } else {
        lemma_joined_codes_marker_free(codes.drop_last());
        lemma_dec_chars_marker_free(codes.last() as nat);
    }
}

/// An escape sequence contains no directive marker.
proof fn lemma_escape_chars_marker_free(codes: Seq<u8>)
    ensures
        marker_free(escape_chars(codes)),
{
    lemma_joined_codes_marker_free(codes);
}

/// The output the scanner has produced so far contains no directive marker.
proof fn lemma_scan_out_marker_free(s: Seq<char>)
    ensures
        marker_free(scan(s).out),
    decreases s.len(),
{
    if s.len() == 0 {
    } else {
        lemma_scan_out_marker_free(s.drop_last());
        let pre = scan(s.drop_last());
        lemma_escape_chars_marker_free(run_codes(pre.run));
        assert(scan(s) == step(pre, s.last()));
    }
}

/// Compiled output contains no directive marker, and hence no directive
/// syntax the compiler would consume.
pub proof fn lemma_compile_marker_free(s: Seq<char>)
    ensures
        marker_free(compile(s)),
{
    lemma_scan_out_marker_free(s);
    lemma_escape_chars_marker_free(run_codes(scan(s).run));
}

/// Re-compiling already-compiled output returns it unchanged: compiled
/// output holds raw control bytes and literals only, which never match a
/// directive marker.
pub proof fn lemma_compile_idempotent(s: Seq<char>)
    ensures
        compile(compile(s)) == compile(s),
{
    lemma_compile_marker_free(s);
    lemma_marker_free_identity(compile(s));
}

// ---------------------------------------------------------------------------
// A run of adjacent directives becomes one escape sequence
// ---------------------------------------------------------------------------

/// The opening marker of a directive kind.
pub open spec fn opening_marker(kind: DirectiveKind) -> char {
    match kind {
        DirectiveKind::Effect => '%',
        DirectiveKind::Background => 'B',
        DirectiveKind::Foreground => 'F',
    }
}

/// The opening delimiter of a directive kind.
pub open spec fn opening_delim(kind: DirectiveKind) -> char {
    match kind {
        DirectiveKind::Effect => '{',
        DirectiveKind::Background => '<',
        DirectiveKind::Foreground => '<',
    }
}

/// The closing delimiter of a directive kind.
pub open spec fn closing_delim(kind: DirectiveKind) -> char {
    match kind {
        DirectiveKind::Effect => '}',
        DirectiveKind::Background => '>',
        DirectiveKind::Foreground => '>',
    }
}

/// The capturing scanner state of a directive kind.
pub open spec fn in_state(kind: DirectiveKind) -> ScanState {
    match kind {
        DirectiveKind::Effect => ScanState::InEffect,
        DirectiveKind::Background => ScanState::InBg,
        DirectiveKind::Foreground => ScanState::InFg,
    }
}

/// The template text of one completed directive.
pub open spec fn directive_text(kind: DirectiveKind, text: Seq<char>) -> Seq<char> {
    seq![opening_marker(kind), opening_delim(kind)] + text + seq![closing_delim(kind)]
}

/// A payload of a completed directive cannot contain its own closing
/// delimiter: capture would have ended there.
pub open spec fn wf_payload(kind: DirectiveKind, text: Seq<char>) -> bool {
    forall|i: int| 0 <= i < text.len() ==> text[i] != closing_delim(kind)
}

/// The template text of a run of completed directives, one after the other
/// with nothing in between.
pub open spec fn run_text(run: Seq<(DirectiveKind, Seq<char>)>) -> Seq<char>
    decreases run.len(),
{
    if run.len() == 0 {
        Seq::empty()
    } else {
        run_text(run.drop_last()) + directive_text(run.last().0, run.last().1)
    }
}

/// Every payload of the run is a completed directive's payload.
pub open spec fn wf_run(run: Seq<(DirectiveKind, Seq<char>)>) -> bool {
    forall|i: int| 0 <= i < run.len() ==> wf_payload(run[i].0, #[trigger] run[i].1)
}

/// Scanning a token sequence splits over concatenation.
proof fn lemma_scan_from_append(sc: Scanner, a: Seq<char>, b: Seq<char>)
    ensures
        scan_from(sc, a + b) == scan_from(scan_from(sc, a), b),
    decreases b.len(),
{
    if b.len() == 0 {
        assert(a + b =~= a);
    } else {
        lemma_scan_from_append(sc, a, b.drop_last());
        assert((a + b).drop_last() =~= a + b.drop_last());
        assert((a + b).last() == b.last());
        assert((a + b).len() > 0);
    }
}

/// While capturing, every character short of the closing delimiter is
/// appended to the payload buffer and nothing else changes.
proof fn lemma_scan_payload(sc: Scanner, kind: DirectiveKind, text: Seq<char>)
    requires
        sc.state == in_state(kind),
        wf_payload(kind, text),
    ensures
        scan_from(sc, text) == (Scanner {
            state: sc.state,
            buf: sc.buf + text,
            run: sc.run,
            out: sc.out,
        }),
    decreases text.len(),
{
    if text.len() == 0 {
        assert(sc.buf + text =~= sc.buf);
    } else {
        lemma_scan_payload(sc, kind, text.drop_last());
        assert(sc.buf + text =~= (sc.buf + text.drop_last()).push(text.last()));
    }
}

/// Scanning one completed directive from an idle scanner appends its
/// payload to the pending run and emits nothing.
proof fn lemma_scan_directive(sc: Scanner, kind: DirectiveKind, text: Seq<char>)
    requires
        sc.state == ScanState::Idle,
        wf_payload(kind, text),
    ensures
        scan_from(sc, directive_text(kind, text)) == (Scanner {
            state: ScanState::Idle,
            buf: Seq::empty(),
            run: sc.run.push((kind, text)),
            out: sc.out,
        }),
{
    let head = seq![opening_marker(kind), opening_delim(kind)];
    let tail = seq![closing_delim(kind)];
    assert(directive_text(kind, text) =~= (head + text) + tail);
    lemma_scan_from_append(sc, head + text, tail);
    lemma_scan_from_append(sc, head, text);
    let sc1 = step(sc, opening_marker(kind));
    let sc2 = step(sc1, opening_delim(kind));
    assert(scan_from(sc, head) == sc2) by {
        assert(head.drop_last() =~= seq![opening_marker(kind)]);
        assert(seq![opening_marker(kind)].drop_last() =~= Seq::<char>::empty());
        assert(seq![opening_marker(kind)].last() == opening_marker(kind));
        assert(scan_from(sc, Seq::<char>::empty()) == sc);
        assert(scan_from(sc, seq![opening_marker(kind)]) == sc1);
        assert(head.last() == opening_delim(kind));
    }
    assert(sc2.state == in_state(kind));
    assert(sc2.buf =~= Seq::<char>::empty());
    lemma_scan_payload(sc2, kind, text);
    let sc3 = scan_from(sc, head + text);
    assert(sc3.buf =~= text);
    assert(scan_from(sc3, tail) == step(sc3, closing_delim(kind))) by {
        assert(tail.drop_last() =~= Seq::<char>::empty());
        assert(tail.last() == closing_delim(kind));
        assert(scan_from(sc3, Seq::<char>::empty()) == sc3);
    }
}

/// Scanning a run of adjacent completed directives from an idle scanner
/// collects all their payloads, in encounter order, and emits nothing.
proof fn lemma_scan_run_text(sc: Scanner, run: Seq<(DirectiveKind, Seq<char>)>)
    requires
        sc.state == ScanState::Idle,
        run.len() > 0,
        wf_run(run),
    ensures
        scan_from(sc, run_text(run)) == (Scanner {
            state: ScanState::Idle,
            buf: Seq::empty(),
            run: sc.run + run,
            out: sc.out,
        }),
    decreases run.len(),
{
    let pre = run.drop_last();
    let last = run.last();
    lemma_scan_from_append(sc, run_text(pre), directive_text(last.0, last.1));
    if pre.len() == 0 {
        assert(run_text(pre) =~= Seq::<char>::empty());
        assert(scan_from(sc, run_text(pre)) == sc);
        lemma_scan_directive(sc, last.0, last.1);
        assert(sc.run + run =~= sc.run.push(last));
    } else {
        lemma_scan_run_text(sc, pre);
        let mid = scan_from(sc, run_text(pre));
        lemma_scan_directive(mid, last.0, last.1);
        assert(sc.run + run =~= (sc.run + pre).push(last));
    }
}

/// A template that is exactly a run of completed directives, with no
/// intervening literal, compiles to exactly one escape sequence carrying
/// the run's codes in encounter order, never one sequence per directive.
pub proof fn lemma_run_single_escape(run: Seq<(DirectiveKind, Seq<char>)>)
    requires
        run.len() > 0,
        wf_run(run),
    ensures
        compile(run_text(run)) == escape_chars(run_codes(run)),
{
    lemma_scan_run_text(initial_scanner(), run);
    assert(Seq::<(DirectiveKind, Seq<char>)>::empty() + run =~= run);
    assert(Seq::<char>::empty() + escape_chars(run_codes(run)) =~= escape_chars(run_codes(run)));
}

} // verus!
