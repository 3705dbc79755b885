//! How a list and a number are written out as text.

use std::fmt::Debug;
use vstd::prelude::*;
use vstd::string::StrSliceExecFns;
use vstd::string::StringExecFns;

verus! {

/// The line that shows a list, given the text of each of its values in order:
/// every text is followed by `" -> "`, and `"None"` closes the line.
pub open spec fn rendering(texts: Seq<Seq<char>>) -> Seq<char>
    decreases texts.len(),
{
    if texts.len() == 0 {
        "None"@
    } else {
        texts.first() + " -> "@ + rendering(texts.drop_first())
    }
}

/// The character that stands for a digit below ten.
pub open spec fn digit(d: nat) -> char
    recommends
        d < 10,
{
    "0123456789"@[d as int]
}

/// A number in decimal notation, without leading zeros.
pub open spec fn decimal(n: nat) -> Seq<char>
    decreases n,
{
    if n < 10 {
        seq![digit(n)]
    } else {
        decimal(n / 10).push(digit(n % 10))
    }
}

/// The text of each string, in order.
pub open spec fn views(texts: Seq<String>) -> Seq<Seq<char>> {
    texts.map_values(|text: String| text@)
}

/// Writes the line that shows a list out of the texts of its values.
pub fn render(texts: &Vec<String>) -> (line: String)
    ensures
        line@ == rendering(views(texts@)),
{
    let ghost all = views(texts@);
    let mut line = String::new();
    let mut i: usize = 0;
    assert(line@ + rendering(all.skip(0)) =~= rendering(all)) by {
        assert(all.skip(0) =~= all);
    }
    while i < texts.len()
        invariant
            i <= texts.len(),
            all == views(texts@),
            rendering(all) == line@ + rendering(all.skip(i as int)),
        decreases texts.len() - i,
    {
        let ghost so_far = line@;
        let ghost rest = all.skip(i as int);
        line.append(texts[i].as_str());
        line.append(" -> ");
        proof {
            assert(rest.first() == texts@[i as int]@);
            assert(rest.drop_first() =~= all.skip(i + 1));
            assert(so_far + (rest.first() + " -> "@ + rendering(rest.drop_first())) =~= line@
                + rendering(all.skip(i + 1)));
        }
        i += 1;
    }
    line.append("None");
    line
}

/// Writes `n` in decimal notation.
pub(crate) fn decimal_text(n: usize) -> (text: String)
    ensures
        text@ == decimal(n as nat),
    decreases n,
{
    let digits = "0123456789";
    proof {
        reveal_strlit("0123456789");
    }
    if n < 10 {
        let text = String::from_str(digits.substring_ascii(n, n + 1));
        assert(text@ =~= seq![digit(n as nat)]);
        text
    } else {
        let mut text = decimal_text(n / 10);
        let d: usize = n % 10;
        text.append(digits.substring_ascii(d, d + 1));
        assert(text@ =~= decimal(n as nat / 10).push(digit(n as nat % 10)));
        text
    }
}

/// The `Debug` text of a value, as `format!("{:?}", ..)` writes it. What the
/// text holds is up to the value's `Debug` implementation, so nothing is
/// claimed of it; an implementation that panics makes this call panic.
#[verifier::external_body]
pub(crate) fn debug_text<T: Debug>(value: &T) -> (text: String) {
    format!("{:?}", value)
}

} // verus!
