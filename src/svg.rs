use vstd::prelude::*;

verus! {

/// The character of the decimal digit `d`, for `d` below 10.
pub open spec fn digit_char(d: nat) -> char {
    if d == 0 {
        '0'
    } else if d == 1 {
        '1'
    } else if d == 2 {
        '2'
    } else if d == 3 {
        '3'
    } else if d == 4 {
        '4'
    } else if d == 5 {
        '5'
    } else if d == 6 {
        '6'
    } else if d == 7 {
        '7'
    } else if d == 8 {
        '8'
    } else {
        '9'
    }
}

/// The decimal digits of `n`, most significant first, without leading zeros.
pub open spec fn decimal(n: nat) -> Seq<char>
    decreases n,
{
    if n < 10 {
        seq![digit_char(n)]
    } else {
        decimal(n / 10).push(digit_char(n % 10))
    }
}

/// An SVG straight stroke from (x1, y1) to (x2, y2).
pub open spec fn line_text(x1: nat, y1: nat, x2: nat, y2: nat) -> Seq<char> {
    "M "@ + decimal(x1) + " "@ + decimal(y1) + " L "@ + decimal(x2) + " "@ + decimal(y2) + " "@
}

/// An SVG cubic curve from (x1, y1) to (x2, y2) with control points (cx1, cy1)
/// and (cx2, cy2).
pub open spec fn curve_text(
    x1: nat,
    y1: nat,
    cx1: nat,
    cy1: nat,
    cx2: nat,
    cy2: nat,
    x2: nat,
    y2: nat,
) -> Seq<char> {
    "M "@ + decimal(x1) + " "@ + decimal(y1) + " C "@ + decimal(cx1) + " "@ + decimal(cy1) + " "@
        + decimal(cx2) + " "@ + decimal(cy2) + " "@ + decimal(x2) + " "@ + decimal(y2) + " "@
}

/// Appends the decimal digit `d`.
fn push_digit(s: &mut String, d: u128)
    requires
        d < 10,
    ensures
        final(s)@ == old(s)@ + seq![digit_char(d as nat)],
{
    proof {
        reveal_strlit("0");
        reveal_strlit("1");
        reveal_strlit("2");
        reveal_strlit("3");
        reveal_strlit("4");
        reveal_strlit("5");
        reveal_strlit("6");
        reveal_strlit("7");
        reveal_strlit("8");
        reveal_strlit("9");
    }
    if d == 0 {
        s.append("0");
    } else if d == 1 {
        s.append("1");
    } else if d == 2 {
        s.append("2");
    } else if d == 3 {
        s.append("3");
    } else if d == 4 {
        s.append("4");
    } else if d == 5 {
        s.append("5");
    } else if d == 6 {
        s.append("6");
    } else if d == 7 {
        s.append("7");
    } else if d == 8 {
        s.append("8");
    } else {
        s.append("9");
    }
}

/// Appends `n` in decimal.
pub fn push_decimal(s: &mut String, n: u128)
    ensures
        final(s)@ == old(s)@ + decimal(n as nat),
    decreases n,
{
    if n >= 10 {
        push_decimal(s, n / 10);
        push_digit(s, n % 10);
        proof {
            assert(final(s)@ =~= old(s)@ + decimal(n as nat));
        }
    } else {
        push_digit(s, n);
    }
}

/// Appends a straight stroke from (x1, y1) to (x2, y2).
pub fn push_line(s: &mut String, x1: u128, y1: u128, x2: u128, y2: u128)
    ensures
        final(s)@ == old(s)@ + line_text(x1 as nat, y1 as nat, x2 as nat, y2 as nat),
{
    let ghost s0 = s@;
    s.append("M ");
    push_decimal(s, x1);
    s.append(" ");
    push_decimal(s, y1);
    s.append(" L ");
    push_decimal(s, x2);
    s.append(" ");
    push_decimal(s, y2);
    s.append(" ");
    assert(s@ =~= s0 + line_text(x1 as nat, y1 as nat, x2 as nat, y2 as nat));
}

/// Appends a cubic curve from (x1, y1) to (x2, y2) with control points
/// (cx1, cy1) and (cx2, cy2).
pub fn push_curve(
    s: &mut String,
    x1: u128,
    y1: u128,
    cx1: u128,
    cy1: u128,
    cx2: u128,
    cy2: u128,
    x2: u128,
    y2: u128,
)
    ensures
        final(s)@ == old(s)@ + curve_text(
            x1 as nat,
            y1 as nat,
            cx1 as nat,
            cy1 as nat,
            cx2 as nat,
            cy2 as nat,
            x2 as nat,
            y2 as nat,
        ),
{
    let ghost s0 = s@;
    s.append("M ");
    push_decimal(s, x1);
    s.append(" ");
    push_decimal(s, y1);
    s.append(" C ");
    push_decimal(s, cx1);
    s.append(" ");
    push_decimal(s, cy1);
    s.append(" ");
    push_decimal(s, cx2);
    s.append(" ");
    push_decimal(s, cy2);
    s.append(" ");
    push_decimal(s, x2);
    s.append(" ");
    push_decimal(s, y2);
    s.append(" ");
    assert(s@ =~= s0 + curve_text(
        x1 as nat,
        y1 as nat,
        cx1 as nat,
        cy1 as nat,
        cx2 as nat,
        cy2 as nat,
        x2 as nat,
        y2 as nat,
    ));
}

} // verus!
