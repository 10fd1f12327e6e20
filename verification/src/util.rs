use vstd::prelude::*;

use crate::text::str_chars;

verus! {

/// `s` with every backslash replaced by a forward slash.
pub open spec fn forward_slashes(s: Seq<char>) -> Seq<char> {
    s.map_values(|c: char| if c == '\\' { '/' } else { c })
}

/// The path written with forward slashes only.
pub fn normalize_slashes(path: &str) -> (r: String)
    ensures
        r@ == forward_slashes(path@),
{
    let chars = str_chars(path);
    let mut out = String::new();
    let mut i: usize = 0;
    while i < chars.len()
        invariant
            i <= chars@.len(),
            out@ == forward_slashes(chars@.take(i as int)),
        decreases chars@.len() - i,
    {
        let c = chars[i];
        out.push(if c == '\\' { '/' } else { c });
        assert(chars@.take(i + 1) =~= chars@.take(i as int).push(c));
        assert(out@ =~= forward_slashes(chars@.take(i + 1)));
        i += 1;
    }
    assert(chars@.take(i as int) =~= chars@);
    out
}

/// The time since the Unix epoch by the system clock (`std::time::SystemTime::now` and
/// `duration_since(UNIX_EPOCH)`): whole seconds and the nanoseconds past them, or `None` when
/// the clock reads a time before the epoch.  The contract claims only what `Duration`
/// documents: the nanoseconds stay below one second.
#[verifier::external_body]
fn time_since_epoch() -> (r: Option<(u64, u32)>)
    ensures
        r matches Some((_, nanos)) ==> nanos < 1_000_000_000,
{
    match std::time::SystemTime::now().duration_since(std::time::UNIX_EPOCH) {
        Ok(d) => Some((d.as_secs(), d.subsec_nanos())),
        Err(_) => None,
    }
}

/// Whole milliseconds in `secs` seconds and `nanos` nanoseconds.
pub open spec fn millis_of(secs: u64, nanos: u32) -> nat {
    (secs as nat) * 1000 + (nanos as nat) / 1_000_000
}

/// Whole milliseconds in a duration of `secs` seconds and `nanos` nanoseconds
/// (`Duration::as_millis`).
pub fn duration_millis(secs: u64, nanos: u32) -> (r: u128)
    ensures
        r == millis_of(secs, nanos),
{
    (secs as u128) * 1000 + (nanos / 1_000_000) as u128
}

/// The current time in milliseconds since the Unix epoch, or zero when the clock reads a
/// time before the epoch.  The clock decides the value; every outcome is a whole number of
/// milliseconds of some `Duration`.
pub fn unix_millis_now() -> (r: u128)
    ensures
        r <= millis_of(u64::MAX, 999_999_999),
{
    match time_since_epoch() {
        Some((secs, nanos)) => duration_millis(secs, nanos),
        None => 0,
    }
}


/// A path written with forward slashes holds no backslash, and keeps its length and every
/// other character.
pub proof fn law_forward_slashes(s: Seq<char>)
    ensures
        forward_slashes(s).len() == s.len(),
        forall|j: int| 0 <= j < s.len() ==> #[trigger] forward_slashes(s)[j] != '\\',
        forall|j: int| 0 <= j < s.len() && s[j] != '\\' ==> #[trigger] forward_slashes(s)[j] == s[j],
{
}

} // verus!
