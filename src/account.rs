//! Checks on what a user types to create or open an account.

use vstd::prelude::*;
use crate::text::{chars_of, is_ws, is_whitespace_char, trim, trimmed_string};

verus! {

/// The fewest and the most characters a password may have.
pub const MIN_PASSWORD_CHARS: usize = 8;
pub const MAX_PASSWORD_CHARS: usize = 128;

/// A password is accepted where it has from 8 to 128 characters.
pub fn validate_password(password: &str) -> (r: Result<(), String>)
    ensures
        r is Ok <==> MIN_PASSWORD_CHARS <= password@.len() <= MAX_PASSWORD_CHARS,
        r matches Err(e) ==> e@ == "Password must be between 8 and 128 characters"@,
{
    let n = password.unicode_len();
    if n < MIN_PASSWORD_CHARS || n > MAX_PASSWORD_CHARS {
        return Err(String::from_str("Password must be between 8 and 128 characters"));
    }
    Ok(())
}

/// The index of the first `c` at or after `i`, or the length.
pub open spec fn first_of(s: Seq<char>, c: char, i: int) -> int
    decreases s.len() - i,
{
    if i < 0 || i >= s.len() {
        s.len() as int
    } else if s[i] == c {
        i
    } else {
        first_of(s, c, i + 1)
    }
}

/// An address shape: no whitespace; a non-empty part before the first `@`;
/// after it a non-empty domain holding a dot, neither starting nor ending
/// with one.
pub open spec fn email_like_spec(v: Seq<char>) -> bool {
    let a = first_of(v, '@', 0);
    let local = v.subrange(0, a);
    let domain = v.subrange(a + 1, v.len() as int);
    &&& v.len() > 0
    &&& forall|i: int| 0 <= i < v.len() ==> !is_ws(#[trigger] v[i])
    &&& a < v.len()
    &&& local.len() > 0
    &&& domain.len() > 0
    &&& domain[0] != '.'
    &&& domain.last() != '.'
    &&& exists|i: int| 0 <= i < domain.len() && #[trigger] domain[i] == '.'
}

proof fn lemma_first_of_bounds(s: Seq<char>, c: char, i: int)
    requires
        0 <= i <= s.len(),
    ensures
        i <= first_of(s, c, i) <= s.len(),
        first_of(s, c, i) < s.len() ==> s[first_of(s, c, i)] == c,
    decreases s.len() - i,
{
    if i < s.len() && s[i] != c {
        lemma_first_of_bounds(s, c, i + 1);
    }
}

pub fn is_email_like(value: &str) -> (r: bool)
    ensures
        r == email_like_spec(value@),
{
    let v = chars_of(value);
    let n = v.len();
    if n == 0 {
        return false;
    }
    let mut i: usize = 0;
    while i < n
        invariant
            v@ == value@,
            0 <= i <= n == v@.len(),
            forall|j: int| 0 <= j < i ==> !is_ws(#[trigger] v@[j]),
        decreases n - i,
    {
        if is_whitespace_char(v[i]) {
            assert(!(forall|j: int| 0 <= j < value@.len() ==> !is_ws(#[trigger] value@[j])));
            return false;
        }
        i = i + 1;
    }
    let mut a: usize = 0;
    while a < n && v[a] != '@'
        invariant
            v@ == value@,
            forall|j: int| 0 <= j < n ==> !is_ws(#[trigger] v@[j]),
            0 <= a <= n == v@.len(),
            first_of(v@, '@', a as int) == first_of(v@, '@', 0),
        decreases n - a,
    {
        a = a + 1;
    }
    if a >= n || a == 0 || a + 1 >= n {
        return false;
    }
    let ghost domain = v@.subrange(a + 1, n as int);
    assert(domain[0] == v@[a + 1]);
    assert(domain.last() == v@[n - 1]);
    if v[a + 1] == '.' || v[n - 1] == '.' {
        return false;
    }
    let mut k: usize = a + 1;
    while k < n
        invariant
            v@ == value@,
            forall|j: int| 0 <= j < n ==> !is_ws(#[trigger] v@[j]),
            a == first_of(v@, '@', 0),
            0 < a,
            domain[0] != '.',
            domain.last() != '.',
            a + 1 <= k <= n == v@.len(),
            domain == v@.subrange(a + 1, n as int),
            forall|j: int| a + 1 <= j < k ==> v@[j] != '.',
        decreases n - k,
    {
        if v[k] == '.' {
            assert(domain[k - a - 1] == '.');
            return true;
        }
        k = k + 1;
    }
    assert forall|j: int| 0 <= j < domain.len() implies #[trigger] domain[j] != '.' by {
        assert(domain[j] == v@[a + 1 + j]);
    }
    false
}

/// What `str::to_lowercase` gives for a text.
pub uninterp spec fn lowercase_of(s: Seq<char>) -> Seq<char>;

/// Relies on `str::to_lowercase`: the Unicode lower-case form, which
/// depends on the characters alone.
#[verifier::external_body]
fn lowercase(s: &str) -> (r: String)
    ensures
        r@ == lowercase_of(s@),
{
    s.to_lowercase()
}

/// An address trimmed and in lower case; an error where it does not have
/// the shape of an address.
pub fn normalize_email(email: &str) -> (r: Result<String, String>)
    ensures
        email_like_spec(lowercase_of(trim(email@))) ==> (r matches Ok(v) && v@ == lowercase_of(
            trim(email@),
        )),
        !email_like_spec(lowercase_of(trim(email@))) ==> (r matches Err(e) && e@
            == "Invalid email format"@),
{
    let t = trimmed_string(email);
    let normalized = lowercase(t.as_str());
    if !is_email_like(normalized.as_str()) {
        return Err(String::from_str("Invalid email format"));
    }
    Ok(normalized)
}

} // verus!
