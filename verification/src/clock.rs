use vstd::prelude::*;

verus! {

/// Relies on std::time::SystemTime::now and duration_since: the seconds since
/// the Unix epoch, or zero should the clock stand before it.  Nothing is
/// promised of the value: the clock is the environment's.
#[verifier::external_body]
pub fn get_current_timestamp() -> u64 {
    match std::time::SystemTime::now().duration_since(std::time::UNIX_EPOCH) {
        Ok(d) => d.as_secs(),
        Err(_) => 0,
    }
}

} // verus!
