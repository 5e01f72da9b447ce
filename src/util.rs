//! Small helpers: random passwords and a holder for a deferred closure.
use vstd::prelude::*;
use vstd::string::{StrSliceExecFns, StringExecFns};

use rand::Rng;

verus! {

/// Relies on rand's `Rng::gen_range` over the operating system's random
/// source: a value in `lo..hi`, which must not be empty.
#[verifier::external_body]
fn random_in(lo: u32, hi: u32) -> (r: u32)
    requires
        lo < hi,
    ensures
        lo <= r < hi,
{
    rand::rngs::OsRng.gen_range(lo..hi)
}

/// An ASCII letter or digit.
pub open spec fn is_alphanumeric(c: char) -> bool {
    ||| ('0' as u32 <= c as u32 && c as u32 <= '9' as u32)
    ||| ('A' as u32 <= c as u32 && c as u32 <= 'Z' as u32)
    ||| ('a' as u32 <= c as u32 && c as u32 <= 'z' as u32)
}

/// The character at `k` of one of the three alphabets.
fn alphabet_char(class: u32, k: u32) -> (r: &'static str)
    requires
        class < 3,
        k < (if class == 0 { 10u32 } else { 26u32 }),
    ensures
        r@.len() == 1,
        is_alphanumeric(r@[0]),
{
    let digits = "0123456789";
    let upper = "ABCDEFGHIJKLMNOPQRSTUVWXYZ";
    let lower = "abcdefghijklmnopqrstuvwxyz";
    proof {
        reveal_strlit("0123456789");
        reveal_strlit("ABCDEFGHIJKLMNOPQRSTUVWXYZ");
        reveal_strlit("abcdefghijklmnopqrstuvwxyz");
    }
    let s = if class == 0 {
        digits
    } else if class == 1 {
        upper
    } else {
        lower
    };
    let r = s.substring_char(k as usize, k as usize + 1);
    assert(r@[0] == s@[k as int]);
    r
}

/// A password of 32 random ASCII letters and digits, each of the 62 equally
/// likely.
pub fn passwd_gen() -> (r: String)
    ensures
        r@.len() == 32,
        forall|i: int| 0 <= i < 32 ==> is_alphanumeric(#[trigger] r@[i]),
{
    let mut passwd = String::new();
    let mut n: usize = 0;
    while n < 32
        invariant
            n <= 32,
            passwd@.len() == n,
            forall|i: int| 0 <= i < n ==> is_alphanumeric(#[trigger] passwd@[i]),
        decreases 32 - n,
    {
        let pick = random_in(0, 62);
        let c = if pick < 10 {
            alphabet_char(0, random_in(0, 10))
        } else if pick < 36 {
            alphabet_char(1, random_in(0, 26))
        } else {
            alphabet_char(2, random_in(0, 26))
        };
        let ghost before = passwd@;
        passwd.append(c);
        assert(passwd@[n as int] == c@[0]);
        assert forall|i: int| 0 <= i < n + 1 implies is_alphanumeric(#[trigger] passwd@[i]) by {
            if i < n {
                assert(passwd@[i] == before[i]);
            }
        }
        n = n + 1;
    }
    passwd
}

/// A closure kept for the end of a scope.
pub struct DeferWrapper<F: FnMut()> {
    pub f: F,
}

impl<F: FnMut()> DeferWrapper<F> {
    /// Keeps `f`.
    pub fn new(f: F) -> (r: DeferWrapper<F>)
        ensures
            r.f == f,
    {
        DeferWrapper { f }
    }
}

} // verus!
