//! The lines that list what was found.

use vstd::prelude::*;
use vstd::string::*;
use crate::site::{DefinitionSite, DefinitionSiteView};

verus! {

/// The character of one decimal digit.
pub open spec fn digit_char(d: nat) -> char {
    if d == 0 {
        '0'
    } else if d == 1 {
        '1'
    } else if d == 2 {
        '2'
    } else if d == 3 {
        '3'
    } else if d == 4 {
        '4'
    } else if d == 5 {
        '5'
    } else if d == 6 {
        '6'
    } else if d == 7 {
        '7'
    } else if d == 8 {
        '8'
    } else {
        '9'
    }
}

/// The decimal numeral of `n`, without leading zeros.
pub open spec fn decimal(n: nat) -> Seq<char>
    decreases n,
{
    if n < 10 {
        seq![digit_char(n)]
    } else {
        decimal(n / 10).push(digit_char(n % 10))
    }
}

/// The line that lists one definition: a tab, `function: `, the name,
/// ` @ `, then path, line, column and byte offset with colons between them,
/// and a line end.
pub open spec fn listing_line(site: DefinitionSiteView) -> Seq<char> {
    "\tfunction: "@ + site.name + " @ "@ + site.file_path + ":"@ + decimal(site.line) + ":"@
        + decimal(site.column) + ":"@ + decimal(site.byte_offset) + "\n"@
}

fn digit(d: u32) -> (text: &'static str)
    requires
        d < 10,
    ensures
        text@ == seq![digit_char(d as nat)],
{
    proof {
        reveal_strlit("0");
        reveal_strlit("1");
        reveal_strlit("2");
        reveal_strlit("3");
        reveal_strlit("4");
        reveal_strlit("5");
        reveal_strlit("6");
        reveal_strlit("7");
        reveal_strlit("8");
        reveal_strlit("9");
    }
    let text = if d == 0 {
        "0"
    } else if d == 1 {
        "1"
    } else if d == 2 {
        "2"
    } else if d == 3 {
        "3"
    } else if d == 4 {
        "4"
    } else if d == 5 {
        "5"
    } else if d == 6 {
        "6"
    } else if d == 7 {
        "7"
    } else if d == 8 {
        "8"
    } else {
        "9"
    };
    assert(text@ =~= seq![digit_char(d as nat)]);
    text
}

/// Writes `n` as a decimal numeral at the end of `out`.
pub fn append_decimal(out: &mut String, n: u32)
    ensures
        final(out)@ == old(out)@ + decimal(n as nat),
    decreases n,
{
    if n >= 10 {
        append_decimal(out, n / 10);
    }
    out.append(digit(n % 10));
    assert(final(out)@ =~= old(out)@ + decimal(n as nat)) by {
        if n >= 10 {
            assert(decimal(n as nat) == decimal((n / 10) as nat).push(digit_char((n % 10) as nat)));
        }
    }
}

/// Writes the line that lists `site` at the end of `out`.
pub fn append_listing_line(out: &mut String, site: &DefinitionSite)
    ensures
        final(out)@ == old(out)@ + listing_line(site@),
{
    out.append("\tfunction: ");
    out.append(site.name.as_str());
    out.append(" @ ");
    out.append(site.file_path.as_str());
    out.append(":");
    append_decimal(out, site.line);
    out.append(":");
    append_decimal(out, site.column);
    out.append(":");
    append_decimal(out, site.byte_offset);
    out.append("\n");
    assert(final(out)@ =~= old(out)@ + listing_line(site@));
}

} // verus!
