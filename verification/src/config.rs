//! Settings from the environment.
use vstd::prelude::*;
use vstd::string::*;

use crate::crd;
use crate::duration;
use crate::duration::{parse_duration, Duration};
use crate::text;
use crate::text::join;

verus! {

/// How often the whole vault is re-fetched in the background where nothing
/// else is set, in seconds.
pub const VAULT_CACHE_REFRESH_INTERVAL: u64 = 300;

/// The least time between two refreshes on a miss where nothing else is set,
/// in seconds.
pub const VAULT_CACHE_MIN_REFRESH_INTERVAL: u64 = 30;

/// A setting that may be left out; an empty one counts as left out.
pub fn optional_env(value: Option<String>) -> (r: Option<String>)
    ensures
        text::opt_text(r) == crd::filled(text::opt_text(value)),
{
    match value {
        Some(v) => if v.as_str().is_empty() {
            None
        } else {
            Some(v)
        },
        None => None,
    }
}

/// Whether the value of an interval setting can be read.
pub open spec fn interval_readable(value: Option<Seq<char>>) -> bool {
    value matches Some(v) ==> duration::readable(text::trimmed(v), 0)
}

/// The interval that a setting stands for: the default where it is left out or
/// empty.
pub open spec fn interval_of(name: Seq<char>, value: Option<Seq<char>>, default: u64) -> Result<
    Duration,
    Seq<char>,
> {
    match crd::filled(value) {
        None => Ok(Duration { secs: default, nanos: 0 }),
        Some(v) => match duration::duration_of(v) {
            Ok(d) => Ok(d),
            Err(m) => Err(name + ": "@ + m),
        },
    }
}

/// The interval at which the vault is re-fetched in the background. It has to be
/// positive.
pub open spec fn refresh_interval_of(value: Option<Seq<char>>) -> Result<Duration, Seq<char>> {
    match interval_of("VAULT_CACHE_REFRESH_INTERVAL"@, value, VAULT_CACHE_REFRESH_INTERVAL) {
        Err(m) => Err(m),
        Ok(d) => if d.total() == 0 {
            Err("VAULT_CACHE_REFRESH_INTERVAL must be positive"@)
        } else {
            Ok(d)
        },
    }
}

/// Reads the interval at which the vault is re-fetched in the background.
pub fn refresh_interval_env(value: Option<String>) -> (r: Result<Duration, String>)
    requires
        interval_readable(text::opt_text(value)),
    ensures
        duration::duration_view(r) == refresh_interval_of(text::opt_text(value)),
        r matches Ok(d) ==> d.total() > 0,
{
    match interval_env("VAULT_CACHE_REFRESH_INTERVAL", value, VAULT_CACHE_REFRESH_INTERVAL) {
        Ok(d) => if d.is_zero() {
            Err("VAULT_CACHE_REFRESH_INTERVAL must be positive".to_owned())
        } else {
            Ok(d)
        },
        Err(m) => Err(m),
    }
}

/// Reads an interval setting.
pub fn interval_env(name: &str, value: Option<String>, default: u64) -> (r: Result<
    Duration,
    String,
>)
    requires
        interval_readable(text::opt_text(value)),
    ensures
        duration::duration_view(r) == interval_of(name@, text::opt_text(value), default),
{
    match optional_env(value) {
        None => Ok(Duration::from_secs(default)),
        Some(v) => match parse_duration(v.as_str()) {
            Ok(d) => Ok(d),
            Err(m) => {
                let mut message = join(name, ": ");
                message.append(m.as_str());
                Err(message)
            },
        },
    }
}

/// An interval that is not set, or set to nothing, is the default; one that is
/// set is as it reads, and a fault in it is reported under its name.
pub proof fn law_interval_or_its_default(name: Seq<char>, v: Seq<char>, default: u64)
    ensures
        interval_of(name, None, default) == Ok::<Duration, Seq<char>>(
            Duration { secs: default, nanos: 0 },
        ),
        v.len() == 0 ==> interval_of(name, Some(v), default) == Ok::<Duration, Seq<char>>(
            Duration { secs: default, nanos: 0 },
        ),
        v.len() > 0 ==> match duration::duration_of(v) {
            Ok(d) => interval_of(name, Some(v), default) == Ok::<Duration, Seq<char>>(d),
            Err(m) => interval_of(name, Some(v), default) == Err::<Duration, Seq<char>>(
                name + ": "@ + m,
            ),
        },
{
}

/// The vault is refreshed every five minutes unless told otherwise, and never
/// without a pause: an interval of no length is refused.
pub proof fn law_refresh_interval_is_positive(v: Seq<char>)
    ensures
        refresh_interval_of(None) == Ok::<Duration, Seq<char>>(Duration { secs: 300, nanos: 0 }),
        v.len() > 0 ==> match duration::duration_of(v) {
            Ok(d) => if d.secs == 0 && d.nanos == 0 {
                refresh_interval_of(Some(v)) is Err
            } else {
                refresh_interval_of(Some(v)) == Ok::<Duration, Seq<char>>(d)
            },
            Err(_) => refresh_interval_of(Some(v)) is Err,
        },
{
}

/// A refresh interval that cannot be used is reported under its name.
pub proof fn law_refresh_interval_faults_are_named(v: Seq<char>)
    requires
        v.len() > 0,
    ensures
        match duration::duration_of(v) {
            Ok(d) => d.secs == 0 && d.nanos == 0 ==> refresh_interval_of(Some(v)) == Err::<
                Duration,
                Seq<char>,
            >("VAULT_CACHE_REFRESH_INTERVAL must be positive"@),
            Err(m) => refresh_interval_of(Some(v)) == Err::<Duration, Seq<char>>(
                "VAULT_CACHE_REFRESH_INTERVAL"@ + ": "@ + m,
            ),
        },
{
}

/// An interval can be read wherever its text can, and where there is none.
pub proof fn law_interval_is_readable_with_its_text(v: Seq<char>)
    ensures
        interval_readable(None),
        interval_readable(Some(v)) <==> duration::readable(text::trimmed(v), 0),
        VAULT_CACHE_REFRESH_INTERVAL == 300,
        VAULT_CACHE_MIN_REFRESH_INTERVAL == 30,
{
}

} // verus!
