use vstd::prelude::*;
use vstd::string::StringExecFns;

verus! {

/// The decimal digit character of `d`, for `d < 10`.
pub open spec fn digit_char(d: nat) -> char {
    if d == 0 { '0' }
    else if d == 1 { '1' }
    else if d == 2 { '2' }
    else if d == 3 { '3' }
    else if d == 4 { '4' }
    else if d == 5 { '5' }
    else if d == 6 { '6' }
    else if d == 7 { '7' }
    else if d == 8 { '8' }
    else { '9' }
}

/// The decimal numeral of `n`: no sign, no leading zeros, `0` for zero.
pub open spec fn decimal(n: nat) -> Seq<char>
    decreases n,
{
    if n < 10 {
        seq![digit_char(n)]
    } else {
        decimal(n / 10).push(digit_char(n % 10))
    }
}

/// One pixel line of the plain-text raster: the three channel bytes in
/// decimal, separated by single spaces, ended by a newline.
pub open spec fn pixel_line(r: u8, g: u8, b: u8) -> Seq<char> {
    decimal(r as nat) + seq![' '] + decimal(g as nat) + seq![' '] + decimal(b as nat) + seq!['\n']
}

/// Relies on `u32::to_string` (through `Display`): the decimal numeral of
/// the value.
#[verifier::external_body]
pub(crate) fn decimal_string(n: u32) -> (r: String)
    ensures
        r@ == decimal(n as nat),
{
    n.to_string()
}

/// The pixel line of the channel bytes `rbyte`, `gbyte`, `bbyte`.
pub fn write_color_to_string(rbyte: u8, gbyte: u8, bbyte: u8) -> (r: String)
    ensures
        r@ == pixel_line(rbyte, gbyte, bbyte),
{
    let mut out = String::new();
    write_color(&mut out, rbyte, gbyte, bbyte);
    out
}

/// Appends the pixel line of the channel bytes to `out`.
pub fn write_color(out: &mut String, rbyte: u8, gbyte: u8, bbyte: u8)
    ensures
        final(out)@ == old(out)@ + pixel_line(rbyte, gbyte, bbyte),
{
    let space = " ";
    let newline = "\n";
    proof {
        reveal_strlit(" ");
        reveal_strlit("\n");
    }
    let rs = decimal_string(rbyte as u32);
    let gs = decimal_string(gbyte as u32);
    let bs = decimal_string(bbyte as u32);
    out.append(rs.as_str());
    out.append(space);
    out.append(gs.as_str());
    out.append(space);
    out.append(bs.as_str());
    out.append(newline);
    assert(final(out)@ =~= old(out)@ + pixel_line(rbyte, gbyte, bbyte));
}

} // verus!
