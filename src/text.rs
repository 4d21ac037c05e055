//! Character-level helpers: conversions between strings and character
//! vectors, decimal rendering of integers, and ANSI coloring.
use colorama::Colored;
use vstd::prelude::*;

verus! {

/// The escape sequence that ends a colored span.
pub open spec fn ansi_reset() -> Seq<char> {
    seq!['\x1b', '[', '0', 'm']
}

/// Colors the library paints with.
#[derive(Clone, Copy, Debug, PartialEq, Eq, Structural)]
pub enum Color {
    Red,
    Blue,
}

/// The escape sequence that starts a span of the given color.
pub open spec fn ansi_start(c: Color) -> Seq<char> {
    match c {
        Color::Red => seq!['\x1b', '[', '3', '1', 'm'],
        Color::Blue => seq!['\x1b', '[', '3', '4', 'm'],
    }
}

/// `text` painted in color `c`, or left as is when coloring is off.
pub open spec fn painted(text: Seq<char>, c: Color, colored: bool) -> Seq<char> {
    if colored {
        ansi_start(c) + text + ansi_reset()
    } else {
        text
    }
}

/// The character sequences of a sequence of strings.
pub open spec fn string_views(v: Seq<String>) -> Seq<Seq<char>> {
    v.map_values(|s: String| s@)
}

/// The decimal digit for `d < 10`.
pub open spec fn digit_char(d: nat) -> char {
    if d == 0 { '0' }
    else if d == 1 { '1' }
    else if d == 2 { '2' }
    else if d == 3 { '3' }
    else if d == 4 { '4' }
    else if d == 5 { '5' }
    else if d == 6 { '6' }
    else if d == 7 { '7' }
    else if d == 8 { '8' }
    else { '9' }
}

/// The decimal representation of `n`, without leading zeros.
pub open spec fn decimal(n: nat) -> Seq<char>
    decreases n,
{
    if n < 10 {
        seq![digit_char(n)]
    } else {
        decimal(n / 10).push(digit_char(n % 10))
    }
}

/// The characters of `s`, in order.
pub(crate) fn chars_of(s: &str) -> (r: Vec<char>)
    ensures
        r@ == s@,
{
    let mut out: Vec<char> = Vec::new();
    for c in it: s.chars()
        invariant
            it.seq() == s@,
            out@ == it.seq().subrange(0, it.index() as int),
    {
        out.push(c);
    }
    out
}

/// Relies on `String`'s `FromIterator<char>`: the string holds exactly the
/// given characters, in order.
#[verifier::external_body]
pub(crate) fn string_of(cs: &Vec<char>) -> (r: String)
    ensures
        r@ == cs@,
{
    String::from_iter(cs.iter())
}

/// Relies on colorama's `Colored::color` for `String`: for the names "red"
/// and "blue" it inserts `ESC[31m` or `ESC[34m` in front and appends `ESC[0m`.
#[verifier::external_body]
fn color_with(s: &String, name: &str) -> (r: String)
    requires
        name@ == seq!['r', 'e', 'd'] || name@ == seq!['b', 'l', 'u', 'e'],
    ensures
        name@ == seq!['r', 'e', 'd'] ==> r@ == ansi_start(Color::Red) + s@ + ansi_reset(),
        name@ == seq!['b', 'l', 'u', 'e'] ==> r@ == ansi_start(Color::Blue) + s@ + ansi_reset(),
{
    let mut t = s.clone();
    t.color(name);
    t
}

/// Paints `s` in color `c` when `colored` holds; otherwise returns a copy.
pub fn paint(s: &String, c: Color, colored: bool) -> (r: String)
    ensures
        r@ == painted(s@, c, colored),
{
    if !colored {
        return s.clone();
    }
    match c {
        Color::Red => {
            proof {
                reveal_strlit("red");
                assert("red"@ =~= seq!['r', 'e', 'd']);
            }
            color_with(s, "red")
        },
        Color::Blue => {
            proof {
                reveal_strlit("blue");
                assert("blue"@ =~= seq!['b', 'l', 'u', 'e']);
            }
            color_with(s, "blue")
        },
    }
}

/// Appends the decimal digits of `n` to `out`.
pub fn push_decimal(n: usize, out: &mut Vec<char>)
    ensures
        final(out)@ == old(out)@ + decimal(n as nat),
    decreases n,
{
    let d: usize = n % 10;
    let c: char = if d == 0 { '0' }
        else if d == 1 { '1' }
        else if d == 2 { '2' }
        else if d == 3 { '3' }
        else if d == 4 { '4' }
        else if d == 5 { '5' }
        else if d == 6 { '6' }
        else if d == 7 { '7' }
        else if d == 8 { '8' }
        else { '9' };
    if n >= 10 {
        push_decimal(n / 10, out);
    }
    out.push(c);
    proof {
        if n >= 10 {
            assert(decimal(n as nat) == decimal((n / 10) as nat).push(digit_char((n % 10) as nat)));
        }
    }
    assert(final(out)@ =~= old(out)@ + decimal(n as nat));
}

/// The decimal representation of `n` as a string.
pub fn decimal_string(n: usize) -> (r: String)
    ensures
        r@ == decimal(n as nat),
{
    let mut cs: Vec<char> = Vec::new();
    push_decimal(n, &mut cs);
    assert(cs@ =~= decimal(n as nat));
    string_of(&cs)
}

} // verus!
