use vstd::prelude::*;
use vstd::string::StringExecFns;

verus! {

/// The sizes of a tensor's four dimensions.
#[derive(Debug, Clone, Copy, PartialEq, Eq)]
pub struct Shape(pub [usize; 4]);

/// The decimal digit `d`.
pub open spec fn digit_text(d: nat) -> Seq<char> {
    if d == 0 { "0"@ }
    else if d == 1 { "1"@ }
    else if d == 2 { "2"@ }
    else if d == 3 { "3"@ }
    else if d == 4 { "4"@ }
    else if d == 5 { "5"@ }
    else if d == 6 { "6"@ }
    else if d == 7 { "7"@ }
    else if d == 8 { "8"@ }
    else { "9"@ }
}

/// `n` in decimal, without leading zeros.
pub open spec fn decimal(n: nat) -> Seq<char>
    decreases n,
{
    if n < 10 {
        digit_text(n)
    } else {
        decimal(n / 10) + digit_text(n % 10)
    }
}

/// The text of one decimal digit.
fn digit(d: usize) -> (r: &'static str)
    requires
        d < 10,
    ensures
        r@ == digit_text(d as nat),
{
    if d == 0 { "0" }
    else if d == 1 { "1" }
    else if d == 2 { "2" }
    else if d == 3 { "3" }
    else if d == 4 { "4" }
    else if d == 5 { "5" }
    else if d == 6 { "6" }
    else if d == 7 { "7" }
    else if d == 8 { "8" }
    else { "9" }
}

/// `n` written in decimal.
pub fn decimal_text(n: usize) -> (r: String)
    ensures
        r@ == decimal(n as nat),
    decreases n,
{
    if n < 10 {
        String::from_str(digit(n))
    } else {
        let mut head = decimal_text(n / 10);
        head.append(digit(n % 10));
        head
    }
}

/// The sizes, as a list in brackets: `[1, 3, 224, 224]`.
pub open spec fn dims_text(d: Seq<usize>) -> Seq<char> {
    "["@ + decimal(d[0] as nat) + ", "@ + decimal(d[1] as nat) + ", "@ + decimal(d[2] as nat) + ", "@
        + decimal(d[3] as nat) + "]"@
}

impl Shape {
    /// The shape as written in source: `Shape([1, 3, 224, 224])`.
    pub fn text(&self) -> (r: String)
        ensures
            r@ == "Shape("@ + dims_text(self.0@) + ")"@,
    {
        let mut s = String::from_str("Shape([");
        s.append(decimal_text(self.0[0]).as_str());
        s.append(", ");
        s.append(decimal_text(self.0[1]).as_str());
        s.append(", ");
        s.append(decimal_text(self.0[2]).as_str());
        s.append(", ");
        s.append(decimal_text(self.0[3]).as_str());
        s.append("])");
        proof {
            reveal_strlit("Shape([");
            reveal_strlit("Shape(");
            reveal_strlit("[");
            reveal_strlit("])");
            reveal_strlit("]");
            reveal_strlit(")");
        }
        assert(s@ =~= "Shape("@ + dims_text(self.0@) + ")"@);
        s
    }
}

} // verus!
