//! The `Date` header value, rendered once per second.

use vstd::prelude::*;

verus! {

/// The first second that has no HTTP date: the year 10000 begins.
pub const MAX_DATE_SECS: u64 = 253_402_300_800;

/// The HTTP date of a second since the epoch.
pub uninterp spec fn http_date(secs: u64) -> Seq<char>;

/// `httpdate::fmt_http_date`: the HTTP date (RFC 9110 Section 5.6.7) of a
/// second since the epoch. It panics from the year 10000 on.
#[verifier::external_body]
fn fmt_http_date(secs: u64) -> (date: String)
    requires
        secs < MAX_DATE_SECS,
    ensures
        date@ == http_date(secs),
{
    httpdate::fmt_http_date(std::time::UNIX_EPOCH + std::time::Duration::from_secs(secs))
}

/// The `Date` header value of the current second, rendered when the second
/// changes.
#[derive(Debug)]
pub struct DateCache {
    cached: Option<(String, u64)>,
}

impl DateCache {
    /// What is cached is the date of its second.
    pub closed spec fn wf(self) -> bool {
        self.cached matches Some((value, secs)) ==> value@ == http_date(secs)
    }

    pub fn new() -> (cache: DateCache)
        ensures
            cache.wf(),
    {
        DateCache { cached: None }
    }

    /// The `Date` header value for the given second since the epoch.
    pub fn get_date_header_value(&mut self, now_secs: u64) -> (value: &str)
        requires
            old(self).wf(),
            now_secs < MAX_DATE_SECS,
        ensures
            final(self).wf(),
            value@ == http_date(now_secs),
    {
        let fresh = match &self.cached {
            Some((_, secs)) => *secs == now_secs,
            None => false,
        };
        if !fresh {
            self.cached = Some((fmt_http_date(now_secs), now_secs));
        }
        match &self.cached {
            Some((value, _)) => value.as_str(),
            None => "",
        }
    }
}

} // verus!
