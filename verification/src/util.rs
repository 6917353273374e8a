//! Small helpers: exact string comparison, selecting the single element of a
//! list, and rendering indices as decimal text.

use vstd::prelude::*;

verus! {

/// Why a list failed to have exactly one element.
#[derive(Debug, Clone, Copy, PartialEq, Eq, Structural)]
pub enum ElementQuantity {
    Zero,
    Multiple,
}

/// The single element of a list, or how the list failed to have one.
pub fn single<T>(v: &Vec<T>) -> (r: Result<&T, ElementQuantity>)
    ensures
        match r {
            Ok(e) => v@.len() == 1 && *e == v@[0],
            Err(ElementQuantity::Zero) => v@.len() == 0,
            Err(ElementQuantity::Multiple) => v@.len() >= 2,
        },
{
    if v.len() == 0 {
        Err(ElementQuantity::Zero)
    } else if v.len() > 1 {
        Err(ElementQuantity::Multiple)
    } else {
        Ok(&v[0])
    }
}

/// Whether two string slices hold the same characters.
pub fn str_eq(a: &str, b: &str) -> (r: bool)
    ensures
        r == (a@ == b@),
{
    let a_len = a.unicode_len();
    let b_len = b.unicode_len();
    if a_len != b_len {
        return false;
    }
    let mut i: usize = 0;
    while i < a_len
        invariant
            a_len == a@.len(),
            b_len == b@.len(),
            a_len == b_len,
            0 <= i <= a_len,
            forall|j: int| 0 <= j < i ==> a@[j] == b@[j],
        decreases a_len - i,
    {
        if a.get_char(i) != b.get_char(i) {
            return false;
        }
        i = i + 1;
    }
    proof {
        assert(a@ =~= b@);
    }
    true
}

/// Whether two strings hold the same characters.
pub fn string_eq(a: &String, b: &String) -> (r: bool)
    ensures
        r == (a@ == b@),
{
    str_eq(a.as_str(), b.as_str())
}

/// The decimal digit characters of `n`, most significant first.
pub open spec fn dec_str(n: nat) -> Seq<char>
    decreases n,
{
    if n < 10 {
        digit_seq(n)
    } else {
        dec_str(n / 10) + digit_seq(n % 10)
    }
}

/// The single decimal digit character for `d < 10`.
pub open spec fn digit_seq(d: nat) -> Seq<char> {
    if d == 0 {
        "0"@
    } else if d == 1 {
        "1"@
    } else if d == 2 {
        "2"@
    } else if d == 3 {
        "3"@
    } else if d == 4 {
        "4"@
    } else if d == 5 {
        "5"@
    } else if d == 6 {
        "6"@
    } else if d == 7 {
        "7"@
    } else if d == 8 {
        "8"@
    } else {
        "9"@
    }
}

/// The one-character string slice for a single decimal digit.
fn digit_str(d: usize) -> (r: &'static str)
    requires
        d < 10,
    ensures
        r@ == digit_seq(d as nat),
{
    if d == 0 {
        "0"
    } else if d == 1 {
        "1"
    } else if d == 2 {
        "2"
    } else if d == 3 {
        "3"
    } else if d == 4 {
        "4"
    } else if d == 5 {
        "5"
    } else if d == 6 {
        "6"
    } else if d == 7 {
        "7"
    } else if d == 8 {
        "8"
    } else {
        "9"
    }
}

/// `n` rendered as decimal text.
pub fn usize_string(n: usize) -> (r: String)
    ensures
        r@ == dec_str(n as nat),
    decreases n,
{
    if n < 10 {
        String::from_str(digit_str(n))
    } else {
        usize_string(n / 10).concat(digit_str(n % 10))
    }
}

/// A remembered working directory. The caller notes the directory it means
/// to come back to; changing directories is I/O and stays with the caller.
pub struct PushCd {
    pub prev_current_dir: String,
}

impl PushCd {
    /// Remember the directory to come back to.
    pub fn new(prev_current_dir: String) -> (r: PushCd)
        ensures
            r.prev_current_dir@ == prev_current_dir@,
    {
        PushCd { prev_current_dir }
    }

    /// The message used when the working directory cannot be changed.
    pub fn setter_error_message(e: &str) -> (r: String)
        ensures
            r@ == "Failed to set current directory: "@ + e@,
    {
        String::from_str("Failed to set current directory: ").concat(e)
    }
}

} // verus!
