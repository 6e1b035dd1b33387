//! Settings by name, the clock, and the run switch.

use vstd::prelude::*;
use vstd::string::*;

verus! {

/// What `str::to_uppercase` yields for a text.
pub uninterp spec fn upper_of(s: Seq<char>) -> Seq<char>;

/// Relies on `str::to_uppercase`: the Unicode upper case of the text, which
/// depends on the text alone.
#[verifier::external_body]
fn to_upper(s: &str) -> (r: String)
    ensures
        r@ == upper_of(s@),
{
    s.to_uppercase()
}

/// Relies on `SystemTime::now` and `duration_since(UNIX_EPOCH)`: whole seconds
/// since the epoch, or `None` where the clock reads earlier.
#[verifier::external_body]
fn unix_secs() -> (r: Option<u64>) {
    std::time::SystemTime::now().duration_since(std::time::SystemTime::UNIX_EPOCH).ok().map(
        |d| d.as_secs(),
    )
}

/// `s` with each `_` written `-`.
pub open spec fn dashed(s: Seq<char>) -> Seq<char> {
    Seq::new(s.len(), |i: int| if s[i] == '_' { '-' } else { s[i] })
}

/// Writes each `_` of `s` as `-`.
pub fn dash_underscores(s: &str) -> (r: String)
    ensures
        r@ == dashed(s@),
{
    let n = s.unicode_len();
    let mut r = String::new();
    let mut i: usize = 0;
    while i < n
        invariant
            n == s@.len(),
            i <= n,
            r@ == dashed(s@).subrange(0, i as int),
        decreases n - i,
    {
        if s.get_char(i) == '_' {
            r.append("-");
        } else {
            r.append(s.substring_char(i, i + 1));
        }
        proof {
            reveal_strlit("-");
            assert(r@ =~= dashed(s@).subrange(0, i + 1));
        }
        i = i + 1;
    }
    assert(dashed(s@).subrange(0, n as int) =~= dashed(s@));
    r
}

/// The name under which a setting is looked up: upper case, `-` for `_`.
pub fn arg_name(name: &str) -> (r: String)
    ensures
        r@ == dashed(upper_of(name@)),
{
    let u = to_upper(name);
    dash_underscores(u.as_str())
}

/// The value of a setting (`value`, as looked up under `arg_name`), or
/// `default` where it is not set.
pub fn get_arg_or(value: Option<String>, default: String) -> (r: String)
    ensures
        r == match value {
            Some(v) => v,
            None => default,
        },
{
    match value {
        Some(v) => v,
        None => default,
    }
}

/// The value of a setting, or the empty text where it is not set.
pub fn get_arg(value: Option<String>) -> (r: String)
    ensures
        r@ == match value {
            Some(v) => v@,
            None => Seq::<char>::empty(),
        },
{
    get_arg_or(value, String::new())
}

/// Seconds since the Unix epoch; 0 where the clock reads earlier.
pub fn now() -> (r: u64) {
    match unix_secs() {
        Some(s) => s,
        None => 0,
    }
}

/// Asks the servers to stop.
pub fn stop(flag: &mut bool)
    ensures
        *final(flag),
{
    *flag = true;
}

/// Lets the servers run.
pub fn start(flag: &mut bool)
    ensures
        !*final(flag),
{
    *flag = false;
}

} // verus!
