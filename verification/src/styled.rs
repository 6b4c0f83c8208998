//! Styled text: a message is a sequence of spans, each a piece of text with a
//! colour and a weight. Rendering the spans to terminal escape codes is left
//! to the caller; the library fixes which text carries which style.

use vstd::prelude::*;
use vstd::string::*;

verus! {

/// The foreground colours that messages use.
#[derive(Clone, Copy, PartialEq, Eq, Debug)]
pub enum Color {
    Red,
    Green,
    Yellow,
    Blue,
    Magenta,
    Cyan,
    White,
    Rgb(u8, u8, u8),
}

/// A colour (or none) and whether the text is bold.
#[derive(Clone, Copy, PartialEq, Eq, Debug)]
pub struct Style {
    pub color: Option<Color>,
    pub bold: bool,
}

/// A piece of text in one style.
pub struct Span {
    pub text: String,
    pub style: Style,
}

/// A message made of styled spans.
pub struct Text {
    pub spans: Vec<Span>,
}

pub open spec fn span_view(s: Span) -> (Seq<char>, Style) {
    (s.text@, s.style)
}

impl View for Text {
    type V = Seq<(Seq<char>, Style)>;

    open spec fn view(&self) -> Seq<(Seq<char>, Style)> {
        self.spans@.map_values(|s: Span| span_view(s))
    }
}

/// The characters of a styled message, its styles left out.
pub open spec fn plain_of(t: Seq<(Seq<char>, Style)>) -> Seq<char>
    decreases t.len(),
{
    if t.len() == 0 {
        Seq::empty()
    } else {
        plain_of(t.drop_last()) + t.last().0
    }
}

pub proof fn lemma_plain_of_push(t: Seq<(Seq<char>, Style)>, x: (Seq<char>, Style))
    ensures
        plain_of(t.push(x)) == plain_of(t) + x.0,
{
    assert(t.push(x).drop_last() =~= t);
}

pub proof fn lemma_plain_of_concat(a: Seq<(Seq<char>, Style)>, b: Seq<(Seq<char>, Style)>)
    ensures
        plain_of(a + b) == plain_of(a) + plain_of(b),
    decreases b.len(),
{
    if b.len() == 0 {
        assert(a + b =~= a);
        assert(plain_of(b) =~= Seq::<char>::empty());
        assert(plain_of(a) + plain_of(b) =~= plain_of(a));
    } else {
        lemma_plain_of_concat(a, b.drop_last());
        assert((a + b).drop_last() =~= a + b.drop_last());
        assert((a + b).last() == b.last());
        assert(plain_of(a) + plain_of(b.drop_last()) + b.last().0 =~= plain_of(a) + (plain_of(
            b.drop_last(),
        ) + b.last().0));
    }
}

/// No colour, not bold.
pub open spec fn spec_plain_style() -> Style {
    Style { color: None, bold: false }
}

pub open spec fn spec_color(c: Color) -> Style {
    Style { color: Some(c), bold: false }
}

pub open spec fn spec_color_bold(c: Color) -> Style {
    Style { color: Some(c), bold: true }
}

/// The unstyled style.
pub fn plain_style() -> (s: Style)
    ensures
        s == spec_plain_style(),
{
    Style { color: None, bold: false }
}

/// A colour, not bold.
pub fn color(c: Color) -> (s: Style)
    ensures
        s == spec_color(c),
{
    Style { color: Some(c), bold: false }
}

/// A colour, bold.
pub fn color_bold(c: Color) -> (s: Style)
    ensures
        s == spec_color_bold(c),
{
    Style { color: Some(c), bold: true }
}

impl Text {
    /// An empty message.
    pub fn new() -> (t: Text)
        ensures
            t@ == Seq::<(Seq<char>, Style)>::empty(),
    {
        let t = Text { spans: Vec::new() };
        assert(t@ =~= Seq::<(Seq<char>, Style)>::empty());
        t
    }

    /// Appends a span that owns its text.
    pub fn push_string(&mut self, text: String, style: Style)
        ensures
            final(self)@ == old(self)@.push((text@, style)),
    {
        let ghost before = self@;
        self.spans.push(Span { text, style });
        assert(self@ =~= before.push((text@, style)));
    }

    /// Appends a span with a copy of the given text.
    pub fn push(&mut self, text: &str, style: Style)
        ensures
            final(self)@ == old(self)@.push((text@, style)),
    {
        self.push_string(text.to_string(), style);
    }

    /// Appends unstyled text.
    pub fn push_plain(&mut self, text: &str)
        ensures
            final(self)@ == old(self)@.push((text@, spec_plain_style())),
    {
        self.push(text, plain_style());
    }

    /// Appends every span of another message.
    pub fn append(&mut self, other: Text)
        ensures
            final(self)@ == old(self)@ + other@,
    {
        let ghost before = self@;
        let ghost added = other@;
        let mut spans = other.spans;
        self.spans.append(&mut spans);
        assert(self@ =~= before + added);
    }

    /// The characters of the message, styles left out.
    pub fn plain(&self) -> (s: String)
        ensures
            s@ == plain_of(self@),
    {
        let mut out = String::new();
        let mut i: usize = 0;
        while i < self.spans.len()
            invariant
                i <= self.spans.len(),
                out@ == plain_of(self@.take(i as int)),
            decreases self.spans.len() - i,
        {
            proof {
                assert(self@.take(i + 1) =~= self@.take(i as int).push(self@[i as int]));
                lemma_plain_of_push(self@.take(i as int), self@[i as int]);
            }
            out.append(self.spans[i].text.as_str());
            i = i + 1;
        }
        assert(self@.take(i as int) =~= self@);
        out
    }
}

/// Appends one character to a string (`String::push`).
#[verifier::external_body]
pub(crate) fn push_char(s: &mut String, c: char)
    ensures
        final(s)@ == old(s)@.push(c),
{
    s.push(c);
}

/// The character of a decimal digit.
pub open spec fn digit_char(d: nat) -> char {
    if d == 0 { '0' }
    else if d == 1 { '1' }
    else if d == 2 { '2' }
    else if d == 3 { '3' }
    else if d == 4 { '4' }
    else if d == 5 { '5' }
    else if d == 6 { '6' }
    else if d == 7 { '7' }
    else if d == 8 { '8' }
    else { '9' }
}

/// The decimal writing of a natural number, without leading zeros.
pub open spec fn decimal(n: nat) -> Seq<char>
    decreases n,
{
    if n < 10 {
        seq![digit_char(n)]
    } else {
        decimal(n / 10).push(digit_char(n % 10))
    }
}

/// The decimal writing of an integer, with a minus sign when negative.
pub open spec fn signed_decimal(n: int) -> Seq<char> {
    if n < 0 {
        seq!['-'] + decimal((-n) as nat)
    } else {
        decimal(n as nat)
    }
}

fn digit(d: u64) -> (c: char)
    requires
        d < 10,
    ensures
        c == digit_char(d as nat),
{
    match d {
        0 => '0',
        1 => '1',
        2 => '2',
        3 => '3',
        4 => '4',
        5 => '5',
        6 => '6',
        7 => '7',
        8 => '8',
        _ => '9',
    }
}

/// Appends the decimal writing of `n`.
pub fn write_decimal(out: &mut String, n: u64)
    ensures
        final(out)@ == old(out)@ + decimal(n as nat),
    decreases n,
{
    if n >= 10 {
        write_decimal(out, n / 10);
    }
    let ghost mid = out@;
    push_char(out, digit(n % 10));
    proof {
        if n >= 10 {
            assert(out@ =~= old(out)@ + decimal(n as nat));
        } else {
            assert(out@ =~= old(out)@ + decimal(n as nat));
        }
    }
}

/// The decimal writing of an unsigned number (`n.to_string()`).
pub fn u64_text(n: u64) -> (s: String)
    ensures
        s@ == decimal(n as nat),
{
    let mut s = String::new();
    write_decimal(&mut s, n);
    assert(s@ =~= decimal(n as nat));
    s
}

/// The decimal writing of a signed number (`n.to_string()`).
pub fn i64_text(n: i64) -> (s: String)
    ensures
        s@ == signed_decimal(n as int),
{
    let mut s = String::new();
    if n < 0 {
        push_char(&mut s, '-');
        let m: u64 = if n == i64::MIN { 9223372036854775808u64 } else { (-n) as u64 };
        write_decimal(&mut s, m);
        assert(s@ =~= signed_decimal(n as int));
    } else {
        write_decimal(&mut s, n as u64);
        assert(s@ =~= signed_decimal(n as int));
    }
    s
}

/// `n` spaces.
pub open spec fn spaces(n: nat) -> Seq<char> {
    Seq::new(n, |i: int| ' ')
}

/// Text padded with spaces on the right to at least `width` characters (`{:<width}`).
pub open spec fn left_aligned(s: Seq<char>, width: nat) -> Seq<char> {
    if s.len() >= width { s } else { s + spaces((width - s.len()) as nat) }
}

/// Text padded with spaces on the left to at least `width` characters (`{:>width}`).
pub open spec fn right_aligned(s: Seq<char>, width: nat) -> Seq<char> {
    if s.len() >= width { s } else { spaces((width - s.len()) as nat) + s }
}

/// Appends `n` spaces.
pub fn write_spaces(out: &mut String, n: usize)
    ensures
        final(out)@ == old(out)@ + spaces(n as nat),
{
    let mut i: usize = 0;
    while i < n
        invariant
            i <= n,
            out@ == old(out)@ + spaces(i as nat),
        decreases n - i,
    {
        push_char(out, ' ');
        i = i + 1;
        assert(out@ =~= old(out)@ + spaces(i as nat));
    }
}

/// The number of characters of a string.
pub fn char_count(s: &str) -> (n: usize)
    ensures
        n as nat == s@.len(),
{
    s.unicode_len()
}

/// `format!("{:<width}", s)`.
pub fn left_align(s: &str, width: usize) -> (r: String)
    ensures
        r@ == left_aligned(s@, width as nat),
{
    let n = char_count(s);
    let mut r = s.to_string();
    if n < width {
        write_spaces(&mut r, width - n);
    }
    r
}

/// `format!("{:>width}", s)`.
pub fn right_align(s: &str, width: usize) -> (r: String)
    ensures
        r@ == right_aligned(s@, width as nat),
{
    let n = char_count(s);
    let mut r = String::new();
    if n < width {
        write_spaces(&mut r, width - n);
    }
    r.append(s);
    assert(n >= width ==> r@ =~= s@);
    r
}

/// The characters of a string, in order.
pub fn chars_of(s: &str) -> (v: Vec<char>)
    ensures
        v@ == s@,
{
    let n = s.unicode_len();
    let mut v: Vec<char> = Vec::new();
    let mut i: usize = 0;
    while i < n
        invariant
            n == s@.len(),
            i <= n,
            v@ == s@.take(i as int),
        decreases n - i,
    {
        v.push(s.get_char(i));
        i = i + 1;
        assert(v@ =~= s@.take(i as int));
    }
    assert(s@.take(i as int) =~= s@);
    v
}

/// A string holding the characters of a slice, in order.
pub fn string_of(v: &[char]) -> (s: String)
    ensures
        s@ == v@,
{
    let mut s = String::new();
    let mut i: usize = 0;
    while i < v.len()
        invariant
            i <= v.len(),
            s@ == v@.take(i as int),
        decreases v.len() - i,
    {
        push_char(&mut s, v[i]);
        i = i + 1;
        assert(s@ =~= v@.take(i as int));
    }
    assert(v@.take(i as int) =~= v@);
    s
}

/// Whether two strings hold the same characters (`==` on `str`).
#[verifier::external_body]
pub(crate) fn same_text(a: &str, b: &str) -> (r: bool)
    ensures
        r == (a@ == b@),
{
    a == b
}

/// Whether some text of the list is `k`.
pub open spec fn list_has(v: Seq<String>, k: Seq<char>) -> bool {
    exists|i: int| 0 <= i < v.len() && #[trigger] v[i]@ == k
}

/// Whether some text of the list is `k` (`contains` on a set of strings).
pub fn contains_text(v: &Vec<String>, k: &str) -> (r: bool)
    ensures
        r == list_has(v@, k@),
{
    let mut i: usize = 0;
    while i < v.len()
        invariant
            i <= v.len(),
            forall|j: int| 0 <= j < i ==> v@[j]@ != k@,
        decreases v.len() - i,
    {
        if same_text(v[i].as_str(), k) {
            return true;
        }
        i = i + 1;
    }
    false
}

/// Adds `k` to a list of distinct texts unless it is there (`insert` on a set of strings).
pub fn insert_text(v: &mut Vec<String>, k: String)
    ensures
        list_has(old(v)@, k@) ==> final(v)@ == old(v)@,
        !list_has(old(v)@, k@) ==> final(v)@ == old(v)@.push(k),
{
    if !contains_text(v, k.as_str()) {
        v.push(k);
    }
}

/// `s` written `n` times.
pub open spec fn repeated(s: Seq<char>, n: nat) -> Seq<char>
    decreases n,
{
    if n == 0 { seq![] } else { repeated(s, (n - 1) as nat) + s }
}

/// `s.repeat(n)`.
pub fn repeat_text(s: &str, n: usize) -> (r: String)
    ensures
        r@ == repeated(s@, n as nat),
{
    let mut r = String::new();
    let mut i: usize = 0;
    while i < n
        invariant
            i <= n,
            r@ == repeated(s@, i as nat),
        decreases n - i,
    {
        r.append(s);
        i = i + 1;
    }
    r
}

/// A span with a copy of `text` in `style`, as a message of its own.
pub open spec fn one(text: Seq<char>, style: Style) -> Seq<(Seq<char>, Style)> {
    seq![(text, style)]
}

} // verus!
