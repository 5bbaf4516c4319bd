//! The prompt template compiler.
//!
//! A template is a string holding literal characters and directives.  A
//! directive selects a font effect (`%{`...`}`), a background colour
//! (`B<`...`>`) or a foreground colour (`F<`...`>`).  Compilation replaces
//! each maximal group of adjacent completed directives (a *run*) with one
//! terminal escape sequence carrying the resolved attribute codes, and
//! passes every other character through unchanged.
//!
//! The compiler is a total function: malformed directive syntax is dropped
//! or resolved to a documented default, never an error.

use vstd::prelude::*;

verus! {

// ---------------------------------------------------------------------------
// Colours and font effects
// ---------------------------------------------------------------------------

/// A background colour.
#[derive(Debug, Copy, Clone)]
pub enum BgColor {
    Black,
    Red,
    Green,
    Yellow,
    Blue,
    Magenta,
    Cyan,
    White,
}

/// A foreground colour.
#[derive(Debug, Copy, Clone)]
pub enum FgColor {
    Black,
    Red,
    Green,
    Yellow,
    Blue,
    Magenta,
    Cyan,
    White,
}

/// A unified enum for carrying either a foreground or a background colour.
#[derive(Debug, Copy, Clone)]
pub enum Color {
    Bg(BgColor),
    Fg(FgColor),
}

/// The terminal attribute code of a background colour.
pub open spec fn bg_color_code(c: BgColor) -> u8 {
    match c {
        BgColor::Black => 40,
        BgColor::Red => 41,
        BgColor::Green => 42,
        BgColor::Yellow => 43,
        BgColor::Blue => 44,
        BgColor::Magenta => 45,
        BgColor::Cyan => 46,
        BgColor::White => 47,
    }
}

/// The terminal attribute code of a foreground colour.
pub open spec fn fg_color_code(c: FgColor) -> u8 {
    match c {
        FgColor::Black => 30,
        FgColor::Red => 31,
        FgColor::Green => 32,
        FgColor::Yellow => 33,
        FgColor::Blue => 34,
        FgColor::Magenta => 35,
        FgColor::Cyan => 36,
        FgColor::White => 37,
    }
}

impl BgColor {
    pub fn to_u8(self) -> (code: u8)
        ensures
            code == bg_color_code(self),
    {
        match self {
            BgColor::Black => 40,
            BgColor::Red => 41,
            BgColor::Green => 42,
            BgColor::Yellow => 43,
            BgColor::Blue => 44,
            BgColor::Magenta => 45,
            BgColor::Cyan => 46,
            BgColor::White => 47,
        }
    }

    /// The escape sequence selecting this background colour alone.
    pub fn to_escape(self) -> (text: String)
        ensures
            text@ == escape_chars(seq![bg_color_code(self)]),
    {
        let mut builder = EscapeSequence::builder();
        builder.append(self.to_u8());
        let es = builder.build();
        proof {
            assert(Seq::<u8>::empty().push(bg_color_code(self)) =~= seq![bg_color_code(self)]);
        }
        es.text().clone()
    }
}

impl FgColor {
    pub fn to_u8(self) -> (code: u8)
        ensures
            code == fg_color_code(self),
    {
        match self {
            FgColor::Black => 30,
            FgColor::Red => 31,
            FgColor::Green => 32,
            FgColor::Yellow => 33,
            FgColor::Blue => 34,
            FgColor::Magenta => 35,
            FgColor::Cyan => 36,
            FgColor::White => 37,
        }
    }

    /// The escape sequence selecting this foreground colour alone.
    pub fn to_escape(self) -> (text: String)
        ensures
            text@ == escape_chars(seq![fg_color_code(self)]),
    {
        let mut builder = EscapeSequence::builder();
        builder.append(self.to_u8());
        let es = builder.build();
        proof {
            assert(Seq::<u8>::empty().push(fg_color_code(self)) =~= seq![fg_color_code(self)]);
        }
        es.text().clone()
    }
}

/// A font effect.
#[derive(Debug, Copy, Clone)]
pub enum FontEffects {
    Italics,
    Underline,
}

/// The terminal attribute code of a font effect.
pub open spec fn font_effect_code(e: FontEffects) -> u8 {
    match e {
        FontEffects::Italics => 3,
        FontEffects::Underline => 4,
    }
}

impl FontEffects {
    pub fn to_u8(self: &FontEffects) -> (code: u8)
        ensures
            code == font_effect_code(*self),
    {
        match self {
            FontEffects::Italics => 3,
            FontEffects::Underline => 4,
        }
    }

    /// The escape sequence selecting this font effect alone.
    pub fn to_escape(self: &FontEffects) -> (text: String)
        ensures
            text@ == escape_chars(seq![font_effect_code(*self)]),
    {
        let mut builder = EscapeSequence::builder();
        builder.append(self.to_u8());
        let es = builder.build();
        proof {
            assert(Seq::<u8>::empty().push(font_effect_code(*self)) =~= seq![
                font_effect_code(*self),
            ]);
        }
        es.text().clone()
    }
}

// ---------------------------------------------------------------------------
// Decimal rendering of attribute codes
// ---------------------------------------------------------------------------

/// The character for one decimal digit.
pub open spec fn digit_char(d: nat) -> char {
    if d == 0 {
        '0'
    } else if d == 1 {
        '1'
    } else if d == 2 {
        '2'
    } else if d == 3 {
        '3'
    } else if d == 4 {
        '4'
    } else if d == 5 {
        '5'
    } else if d == 6 {
        '6'
    } else if d == 7 {
        '7'
    } else if d == 8 {
        '8'
    } else {
        '9'
    }
}

/// The decimal rendering of a number, most significant digit first.
pub open spec fn dec_chars(n: nat) -> Seq<char>
    decreases n,
{
    if n < 10 {
        seq![digit_char(n)]
    } else {
        dec_chars(n / 10).push(digit_char(n % 10))
    }
}

/// The codes of one run joined by `;`, each rendered in decimal.
pub open spec fn joined_codes(codes: Seq<u8>) -> Seq<char>
    decreases codes.len(),
{
    if codes.len() == 0 {
        Seq::empty()
    } else if codes.len() == 1 {
        dec_chars(codes[0] as nat)
    } else {
        joined_codes(codes.drop_last()) + seq![';'] + dec_chars(codes.last() as nat)
    }
}

/// One full escape sequence: the escape prefix, the joined codes, and the
/// terminating letter.
pub open spec fn escape_chars(codes: Seq<u8>) -> Seq<char> {
    seq!['\x1b', '['] + joined_codes(codes) + seq!['m']
}

/// Relies on `String::push`: appends the given character at the end of the
/// string and changes nothing else.
#[verifier::external_body]
fn push_char(s: &mut String, c: char)
    ensures
        final(s)@ == old(s)@.push(c),
{
    s.push(c);
}

/// Appends the character of one decimal digit.
fn push_digit(s: &mut String, d: u8)
    requires
        d < 10,
    ensures
        final(s)@ == old(s)@.push(digit_char(d as nat)),
{
    let c: char = match d {
        0 => '0',
        1 => '1',
        2 => '2',
        3 => '3',
        4 => '4',
        5 => '5',
        6 => '6',
        7 => '7',
        8 => '8',
        _ => '9',
    };
    push_char(s, c);
}

/// Appends the decimal rendering of one attribute code.
fn push_code(s: &mut String, code: u8)
    ensures
        final(s)@ == old(s)@ + dec_chars(code as nat),
{
    if code < 10 {
        push_digit(s, code);
        assert(s@ =~= old(s)@ + dec_chars(code as nat));
    } else if code < 100 {
        push_digit(s, code / 10);
        push_digit(s, code % 10);
        proof {
            let n = code as nat;
            assert(dec_chars(n / 10) == seq![digit_char(n / 10)]);
            assert(dec_chars(n) == dec_chars(n / 10).push(digit_char(n % 10)));
            assert(s@ =~= old(s)@ + dec_chars(n));
        }
    } else {
        push_digit(s, code / 100);
        push_digit(s, (code / 10) % 10);
        push_digit(s, code % 10);
        proof {
            let n = code as nat;
            assert(n / 10 / 10 == n / 100) by (nonlinear_arith);
            assert(dec_chars(n / 100) == seq![digit_char(n / 100)]);
            assert(dec_chars(n / 10) == dec_chars(n / 10 / 10).push(digit_char(n / 10 % 10)));
            assert(dec_chars(n) == dec_chars(n / 10).push(digit_char(n % 10)));
            assert(s@ =~= old(s)@ + dec_chars(n));
        }
    }
}

// ---------------------------------------------------------------------------
// Escape sequence builder
// ---------------------------------------------------------------------------

/// One rendered terminal escape sequence.
#[derive(Debug, Clone)]
pub struct EscapeSequence {
    escape_sequence: String,
}

impl View for EscapeSequence {
    type V = Seq<char>;

    closed spec fn view(&self) -> Seq<char> {
        self.escape_sequence@
    }
}

impl EscapeSequence {
    /// A fresh builder with no codes yet.
    pub fn builder() -> (b: EsBuilder)
        ensures
            b@ == Seq::<u8>::empty(),
    {
        EsBuilder::default()
    }

    /// The rendered text of the sequence.
    pub fn text(&self) -> (t: &String)
        ensures
            t@ == self@,
    {
        &self.escape_sequence
    }
}

/// Accumulates the attribute codes of one run and serializes them into one
/// escape sequence.
#[derive(Debug, Clone)]
pub struct EsBuilder {
    args: Vec<u8>,
}

impl View for EsBuilder {
    type V = Seq<u8>;

    closed spec fn view(&self) -> Seq<u8> {
        self.args@
    }
}

impl Default for EsBuilder {
    fn default() -> (b: EsBuilder)
        ensures
            b@ == Seq::<u8>::empty(),
    {
        EsBuilder { args: Vec::new() }
    }
}

impl EsBuilder {
    /// A fresh builder with no codes yet.
    pub fn new() -> (b: EsBuilder)
        ensures
            b@ == Seq::<u8>::empty(),
    {
        EsBuilder { args: Vec::new() }
    }

    /// Appends one attribute code to the run.
    pub fn append(&mut self, argument: u8)
        ensures
            final(self)@ == old(self)@.push(argument),
    {
        self.args.push(argument);
    }

    /// Serializes the accumulated codes into one escape sequence.  The
    /// compiler never builds an empty run, so at least one code is present.
    pub fn build(&mut self) -> (es: EscapeSequence)
        requires
            old(self)@.len() > 0,
        ensures
            es@ == escape_chars(old(self)@),
            final(self)@ == old(self)@,
    {
        let mut s = String::new();
        push_char(&mut s, '\x1b');
        push_char(&mut s, '[');
        assert(s@ =~= seq!['\x1b', '[']);
        let mut i: usize = 0;
        while i < self.args.len()
            invariant
                i <= self.args.len(),
                s@ == seq!['\x1b', '['] + joined_codes(self.args@.take(i as int)),
            decreases self.args.len() - i,
        {
            if i > 0 {
                push_char(&mut s, ';');
            }
            push_code(&mut s, self.args[i]);
            proof {
                let codes = self.args@;
                let pre = codes.take(i as int);
                let cur = codes.take(i + 1 as int);
                assert(cur.drop_last() =~= pre);
                assert(cur.last() == codes[i as int]);
                if i == 0 {
                    assert(joined_codes(cur) == dec_chars(codes[0] as nat));
                    assert(s@ =~= seq!['\x1b', '['] + joined_codes(cur));
                } else {
                    assert(joined_codes(cur) == joined_codes(pre) + seq![';'] + dec_chars(
                        codes[i as int] as nat,
                    ));
                    assert(s@ =~= seq!['\x1b', '['] + joined_codes(cur));
                }
            }
            i += 1;
        }
        push_char(&mut s, 'm');
        proof {
            assert(self.args@.take(self.args@.len() as int) =~= self.args@);
            assert(s@ =~= escape_chars(self.args@));
        }
        EscapeSequence { escape_sequence: s }
    }
}

// ---------------------------------------------------------------------------
// Attribute resolvers
// ---------------------------------------------------------------------------

/// The background colour a directive payload names; unrecognized or empty
/// payloads fall back to white.
pub open spec fn bg_of_name(text: Seq<char>) -> BgColor {
    if text == "BLACK"@ {
        BgColor::Black
    } else if text == "RED"@ {
        BgColor::Red
    } else if text == "GREEN"@ {
        BgColor::Green
    } else if text == "YELLOW"@ {
        BgColor::Yellow
    } else if text == "BLUE"@ {
        BgColor::Blue
    } else if text == "MAGENTA"@ {
        BgColor::Magenta
    } else if text == "CYAN"@ {
        BgColor::Cyan
    } else {
        BgColor::White
    }
}

/// The foreground colour a directive payload names; unrecognized or empty
/// payloads fall back to white.
pub open spec fn fg_of_name(text: Seq<char>) -> FgColor {
    if text == "BLACK"@ {
        FgColor::Black
    } else if text == "RED"@ {
        FgColor::Red
    } else if text == "GREEN"@ {
        FgColor::Green
    } else if text == "YELLOW"@ {
        FgColor::Yellow
    } else if text == "BLUE"@ {
        FgColor::Blue
    } else if text == "MAGENTA"@ {
        FgColor::Magenta
    } else if text == "CYAN"@ {
        FgColor::Cyan
    } else {
        FgColor::White
    }
}

/// The attribute code of a font-effect payload; unrecognized or empty
/// payloads fall back to the reset code 0.
pub open spec fn effect_code(text: Seq<char>) -> u8 {
    if text == "i"@ {
        font_effect_code(FontEffects::Italics)
    } else if text == "u"@ {
        font_effect_code(FontEffects::Underline)
    } else {
        0
    }
}

/// The attribute code of a background payload.
pub open spec fn bg_code(text: Seq<char>) -> u8 {
    bg_color_code(bg_of_name(text))
}

/// The attribute code of a foreground payload.
pub open spec fn fg_code(text: Seq<char>) -> u8 {
    fg_color_code(fg_of_name(text))
}

/// Resolves a font-effect payload to its attribute code.
pub fn resolve_effect(text: &String) -> (code: u8)
    ensures
        code == effect_code(text@),
{
    if text.eq(&"i".to_owned()) {
        FontEffects::Italics.to_u8()
    } else if text.eq(&"u".to_owned()) {
        FontEffects::Underline.to_u8()
    } else {
        0
    }
}

/// Resolves a background-colour payload to its attribute code.
pub fn resolve_background(text: &String) -> (code: u8)
    ensures
        code == bg_code(text@),
{
    let color = if text.eq(&"BLACK".to_owned()) {
        Color::Bg(BgColor::Black)
    } else if text.eq(&"RED".to_owned()) {
        Color::Bg(BgColor::Red)
    } else if text.eq(&"GREEN".to_owned()) {
        Color::Bg(BgColor::Green)
    } else if text.eq(&"YELLOW".to_owned()) {
        Color::Bg(BgColor::Yellow)
    } else if text.eq(&"BLUE".to_owned()) {
        Color::Bg(BgColor::Blue)
    } else if text.eq(&"MAGENTA".to_owned()) {
        Color::Bg(BgColor::Magenta)
    } else if text.eq(&"CYAN".to_owned()) {
        Color::Bg(BgColor::Cyan)
    } else {
        Color::Bg(BgColor::White)
    };
    match color {
        Color::Bg(bg) => bg.to_u8(),
        Color::Fg(fg) => fg.to_u8(),
    }
}

/// Resolves a foreground-colour payload to its attribute code.
pub fn resolve_foreground(text: &String) -> (code: u8)
    ensures
        code == fg_code(text@),
{
    let color = if text.eq(&"BLACK".to_owned()) {
        Color::Fg(FgColor::Black)
    } else if text.eq(&"RED".to_owned()) {
        Color::Fg(FgColor::Red)
    } else if text.eq(&"GREEN".to_owned()) {
        Color::Fg(FgColor::Green)
    } else if text.eq(&"YELLOW".to_owned()) {
        Color::Fg(FgColor::Yellow)
    } else if text.eq(&"BLUE".to_owned()) {
        Color::Fg(FgColor::Blue)
    } else if text.eq(&"MAGENTA".to_owned()) {
        Color::Fg(FgColor::Magenta)
    } else if text.eq(&"CYAN".to_owned()) {
        Color::Fg(FgColor::Cyan)
    } else {
        Color::Fg(FgColor::White)
    };
    match color {
        Color::Bg(bg) => bg.to_u8(),
        Color::Fg(fg) => fg.to_u8(),
    }
}

// ---------------------------------------------------------------------------
// The directive scanner
// ---------------------------------------------------------------------------

/// The kind of a directive: a font effect, a background colour, or a
/// foreground colour.
#[derive(Debug, Copy, Clone)]
pub enum DirectiveKind {
    Effect,
    Background,
    Foreground,
}

/// The state of the directive scanner.  Exactly one state is active at a
/// time: either scanning literals, or having seen an opening marker and
/// awaiting its delimiter, or capturing a directive payload.
#[derive(Debug, Copy, Clone)]
pub enum ScanState {
    Idle,
    AwaitEffectDelim,
    AwaitBgDelim,
    AwaitFgDelim,
    InEffect,
    InBg,
    InFg,
}

/// The attribute code of one resolved directive payload.
pub open spec fn directive_code(kind: DirectiveKind, text: Seq<char>) -> u8 {
    match kind {
        DirectiveKind::Effect => effect_code(text),
        DirectiveKind::Background => bg_code(text),
        DirectiveKind::Foreground => fg_code(text),
    }
}

/// The codes of a run of payloads, in encounter order.
pub open spec fn run_codes(run: Seq<(DirectiveKind, Seq<char>)>) -> Seq<u8> {
    run.map_values(|p: (DirectiveKind, Seq<char>)| directive_code(p.0, p.1))
}

/// The mathematical view of a run held as a vector of payload strings.
pub open spec fn run_view(run: Seq<(DirectiveKind, String)>) -> Seq<(DirectiveKind, Seq<char>)> {
    run.map_values(|p: (DirectiveKind, String)| (p.0, p.1@))
}

/// The whole scanner: its state, the payload captured so far, the pending
/// run of completed payloads, and the output produced so far.
pub struct Scanner {
    pub state: ScanState,
    pub buf: Seq<char>,
    pub run: Seq<(DirectiveKind, Seq<char>)>,
    pub out: Seq<char>,
}

/// Flushing a pending run: its payloads are resolved and serialized into one
/// escape sequence, appended to the output; an empty run is a no-op.
pub open spec fn flush(sc: Scanner) -> Scanner {
    if sc.run.len() == 0 {
        sc
    } else {
        Scanner {
            state: sc.state,
            buf: sc.buf,
            run: Seq::empty(),
            out: sc.out + escape_chars(run_codes(sc.run)),
        }
    }
}

/// Consuming one token in the idle state: a marker opens a directive; any
/// other character flushes the pending run and passes through as a literal.
pub open spec fn idle_step(sc: Scanner, c: char) -> Scanner {
    if c == '%' {
        Scanner { state: ScanState::AwaitEffectDelim, buf: sc.buf, run: sc.run, out: sc.out }
    } else if c == 'B' {
        Scanner { state: ScanState::AwaitBgDelim, buf: sc.buf, run: sc.run, out: sc.out }
    } else if c == 'F' {
        Scanner { state: ScanState::AwaitFgDelim, buf: sc.buf, run: sc.run, out: sc.out }
    } else {
        let f = flush(sc);
        Scanner { state: ScanState::Idle, buf: f.buf, run: f.run, out: f.out.push(c) }
    }
}

/// The transition table: one token consumed in any state.  A marker whose
/// delimiter does not follow is abandoned (the marker contributes nothing)
/// and the offending token is re-processed by the idle rules; inside a
/// payload only the matching closing delimiter ends capture.
pub open spec fn step(sc: Scanner, c: char) -> Scanner {
    match sc.state {
        ScanState::Idle => idle_step(sc, c),
        ScanState::AwaitEffectDelim => if c == '{' {
            Scanner { state: ScanState::InEffect, buf: Seq::empty(), run: sc.run, out: sc.out }
        } else {
            idle_step(
                Scanner { state: ScanState::Idle, buf: sc.buf, run: sc.run, out: sc.out },
                c,
            )
        },
        ScanState::AwaitBgDelim => if c == '<' {
            Scanner { state: ScanState::InBg, buf: Seq::empty(), run: sc.run, out: sc.out }
        } else {
            idle_step(
                Scanner { state: ScanState::Idle, buf: sc.buf, run: sc.run, out: sc.out },
                c,
            )
        },
        ScanState::AwaitFgDelim => if c == '<' {
            Scanner { state: ScanState::InFg, buf: Seq::empty(), run: sc.run, out: sc.out }
        } else {
            idle_step(
                Scanner { state: ScanState::Idle, buf: sc.buf, run: sc.run, out: sc.out },
                c,
            )
        },
        ScanState::InEffect => if c == '}' {
            Scanner {
                state: ScanState::Idle,
                buf: Seq::empty(),
                run: sc.run.push((DirectiveKind::Effect, sc.buf)),
                out: sc.out,
            }
        } else {
            Scanner { state: sc.state, buf: sc.buf.push(c), run: sc.run, out: sc.out }
        },
        ScanState::InBg => if c == '>' {
            Scanner {
                state: ScanState::Idle,
                buf: Seq::empty(),
                run: sc.run.push((DirectiveKind::Background, sc.buf)),
                out: sc.out,
            }
        } else {
            Scanner { state: sc.state, buf: sc.buf.push(c), run: sc.run, out: sc.out }
        },
        ScanState::InFg => if c == '>' {
            Scanner {
                state: ScanState::Idle,
                buf: Seq::empty(),
                run: sc.run.push((DirectiveKind::Foreground, sc.buf)),
                out: sc.out,
            }
        } else {
            Scanner { state: sc.state, buf: sc.buf.push(c), run: sc.run, out: sc.out }
        },
    }
}

/// The scanner before any token: idle, with nothing captured, pending or
/// emitted.
pub open spec fn initial_scanner() -> Scanner {
    Scanner { state: ScanState::Idle, buf: Seq::empty(), run: Seq::empty(), out: Seq::empty() }
}

/// Running the scanner over a token sequence from a given state.
pub open spec fn scan_from(sc: Scanner, s: Seq<char>) -> Scanner
    decreases s.len(),
{
    if s.len() == 0 {
        sc
    } else {
        step(scan_from(sc, s.drop_last()), s.last())
    }
}

/// Running the scanner over a whole template.
pub open spec fn scan(s: Seq<char>) -> Scanner {
    scan_from(initial_scanner(), s)
}

/// The compiled form of a template: the scan of all its tokens, with the
/// run still pending at end-of-input flushed.  A payload left open at
/// end-of-input sits in `buf` and is discarded.
pub open spec fn compile(s: Seq<char>) -> Seq<char> {
    flush(scan(s)).out
}

/// Scanning one more token extends a scan of the prefix by one step.
pub proof fn lemma_scan_step(s: Seq<char>, i: int)
    requires
        0 <= i < s.len(),
    ensures
        scan(s.take(i + 1)) == step(scan(s.take(i)), s[i]),
{
    assert(s.take(i + 1).drop_last() =~= s.take(i));
    assert(s.take(i + 1).last() == s[i]);
}

// ---------------------------------------------------------------------------
// The compiler driver
// ---------------------------------------------------------------------------

/// Splits a template into its tokens: its characters, in order, none lost.
pub fn tokenize(input: &str) -> (tokens: Vec<char>)
    ensures
        tokens@ == input@,
{
    let n = input.unicode_len();
    let mut tokens: Vec<char> = Vec::new();
    let mut i: usize = 0;
    while i < n
        invariant
            i <= n,
            n == input@.len(),
            tokens@ == input@.take(i as int),
        decreases n - i,
    {
        tokens.push(input.get_char(i));
        proof {
            assert(input@.take(i + 1).drop_last() =~= input@.take(i as int));
            assert(tokens@ =~= input@.take(i + 1));
        }
        i += 1;
    }
    proof {
        assert(input@.take(input@.len() as int) =~= input@);
    }
    tokens
}

/// Resolves one pending payload to its attribute code.
fn resolve_directive(kind: DirectiveKind, text: &String) -> (code: u8)
    ensures
        code == directive_code(kind, text@),
{
    match kind {
        DirectiveKind::Effect => resolve_effect(text),
        DirectiveKind::Background => resolve_background(text),
        DirectiveKind::Foreground => resolve_foreground(text),
    }
}

/// Flushes the pending run: resolves its payloads, serializes them into one
/// escape sequence appended to the output, and clears the run.  An empty
/// run leaves the output untouched.
fn flush_run(run: &mut Vec<(DirectiveKind, String)>, output: &mut String)
    ensures
        final(run)@ == Seq::<(DirectiveKind, String)>::empty(),
        old(run)@.len() == 0 ==> final(output)@ == old(output)@,
        old(run)@.len() > 0 ==> final(output)@ == old(output)@ + escape_chars(
            run_codes(run_view(old(run)@)),
        ),
{
    if run.len() == 0 {
        proof {
            assert(run@ =~= Seq::<(DirectiveKind, String)>::empty());
        }
        return ;
    }
    let mut builder = EscapeSequence::builder();
    let mut i: usize = 0;
    while i < run.len()
        invariant
            i <= run.len(),
            run@ == old(run)@,
            output@ == old(output)@,
            builder@ == run_codes(run_view(run@)).take(i as int),
        decreases run.len() - i,
    {
        let pair = &run[i];
        let code = resolve_directive(pair.0, &pair.1);
        builder.append(code);
        proof {
            let rc = run_codes(run_view(run@));
            assert(rc[i as int] == directive_code(run@[i as int].0, run@[i as int].1@));
            assert(rc.take(i + 1) =~= rc.take(i as int).push(rc[i as int]));
        }
        i += 1;
    }
    proof {
        assert(run_codes(run_view(run@)).take(run@.len() as int) =~= run_codes(run_view(run@)));
    }
    let es = builder.build();
    output.append(es.text().as_str());
    run.clear();
}

/// Compiles a prompt template: literal characters pass through in order,
/// each maximal group of adjacent completed directives becomes exactly one
/// escape sequence, and malformed directive syntax is dropped.
pub fn parse_prompt_colors(input: &str) -> (prompt: String)
    ensures
        prompt@ == compile(input@),
{
    let tokens = tokenize(input);
    let ghost s = input@;
    let mut state = ScanState::Idle;
    let mut buf = String::new();
    let mut run: Vec<(DirectiveKind, String)> = Vec::new();
    let mut output = String::new();
    let mut i: usize = 0;
    proof {
        assert(s.take(0) =~= Seq::<char>::empty());
        assert(run_view(run@) =~= Seq::<(DirectiveKind, Seq<char>)>::empty());
        assert(scan(s.take(0)) == initial_scanner());
    }
    while i < tokens.len()
        invariant
            i <= tokens.len(),
            tokens@ == s,
            scan(s.take(i as int)) == (Scanner {
                state,
                buf: buf@,
                run: run_view(run@),
                out: output@,
            }),
        decreases tokens.len() - i,
    {
        let c = tokens[i];
        proof {
            lemma_scan_step(s, i as int);
        }
        let ghost pre = scan(s.take(i as int));
        match state {
            ScanState::Idle => {
                if c == '%' {
                    state = ScanState::AwaitEffectDelim;
                } else if c == 'B' {
                    state = ScanState::AwaitBgDelim;
                } else if c == 'F' {
                    state = ScanState::AwaitFgDelim;
                } else {
                    flush_run(&mut run, &mut output);
                    push_char(&mut output, c);
                }
            },
            ScanState::AwaitEffectDelim => {
                if c == '{' {
                    state = ScanState::InEffect;
                    buf = String::new();
                } else if c == '%' {
                    state = ScanState::AwaitEffectDelim;
                } else if c == 'B' {
                    state = ScanState::AwaitBgDelim;
                } else if c == 'F' {
                    state = ScanState::AwaitFgDelim;
                } else {
                    state = ScanState::Idle;
                    flush_run(&mut run, &mut output);
                    push_char(&mut output, c);
                }
            },
            ScanState::AwaitBgDelim => {
                if c == '<' {
                    state = ScanState::InBg;
                    buf = String::new();
                } else if c == '%' {
                    state = ScanState::AwaitEffectDelim;
                } else if c == 'B' {
                    state = ScanState::AwaitBgDelim;
                } else if c == 'F' {
                    state = ScanState::AwaitFgDelim;
                } else {
                    state = ScanState::Idle;
                    flush_run(&mut run, &mut output);
                    push_char(&mut output, c);
                }
            },
            ScanState::AwaitFgDelim => {
                if c == '<' {
                    state = ScanState::InFg;
                    buf = String::new();
                } else if c == '%' {
                    state = ScanState::AwaitEffectDelim;
                } else if c == 'B' {
                    state = ScanState::AwaitBgDelim;
                } else if c == 'F' {
                    state = ScanState::AwaitFgDelim;
                } else {
                    state = ScanState::Idle;
                    flush_run(&mut run, &mut output);
                    push_char(&mut output, c);
                }
            },
            ScanState::InEffect => {
                if c == '}' {
                    run.push((DirectiveKind::Effect, buf));
                    buf = String::new();
                    state = ScanState::Idle;
                } else {
                    push_char(&mut buf, c);
                }
            },
            ScanState::InBg => {
                if c == '>' {
                    run.push((DirectiveKind::Background, buf));
                    buf = String::new();
                    state = ScanState::Idle;
                } else {
                    push_char(&mut buf, c);
                }
            },
            ScanState::InFg => {
                if c == '>' {
                    run.push((DirectiveKind::Foreground, buf));
                    buf = String::new();
                    state = ScanState::Idle;
                } else {
                    push_char(&mut buf, c);
                }
            },
        }
        proof {
            let post = step(pre, s[i as int]);
            assert(run_view(run@) =~= post.run);
            assert(buf@ =~= post.buf);
            assert(output@ =~= post.out);
            assert(scan(s.take(i + 1)) == (Scanner {
                state,
                buf: buf@,
                run: run_view(run@),
                out: output@,
            }));
        }
        i += 1;
    }
    proof {
        assert(s.take(tokens@.len() as int) =~= s);
    }
    flush_run(&mut run, &mut output);
    proof {
        assert(output@ =~= compile(s));
    }
    output
}

} // verus!
