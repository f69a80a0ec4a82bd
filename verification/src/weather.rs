//! The weather provider's own decisions: when it may not call at all, which
//! replies count as failures, and how failures are reported.

use vstd::prelude::*;
use crate::text::{dec, nat_digits, push_str, push_u64};

verus! {

/// Why a weather reading could not be had.
#[derive(Debug, Clone)]
pub enum WeatherError {
    Transport(String),
    Decode(String),
    Upstream(u16, String),
    MissingKey,
}

/// OpenWeatherMap, by API key.
#[derive(Debug, Clone)]
pub struct OwmProvider {
    pub api_key: String,
}

pub open spec fn weather_error_text(e: WeatherError) -> Seq<char> {
    match e {
        WeatherError::Transport(s) => "transport: "@ + s@,
        WeatherError::Decode(s) => "decode: "@ + s@,
        WeatherError::Upstream(c, b) => "upstream status "@ + dec(c as int) + ": "@ + b@,
        WeatherError::MissingKey => "missing API key"@,
    }
}

/// The HTTP status and message a weather failure is answered with.
pub open spec fn weather_error_reply_of(e: WeatherError) -> (u16, Seq<char>) {
    match e {
        WeatherError::MissingKey => (503, "owm key missing"@),
        WeatherError::Transport(s) => (502, "owm transport: "@ + s@),
        WeatherError::Decode(s) => (502, "owm decode: "@ + s@),
        WeatherError::Upstream(c, b) => (502, "owm "@ + dec(c as int) + ": "@ + b@),
    }
}

impl WeatherError {
    pub fn message(&self) -> (r: String)
        ensures
            r@ == weather_error_text(*self),
    {
        let mut out = String::new();
        match self {
            WeatherError::Transport(s) => {
                push_str(&mut out, "transport: ");
                push_str(&mut out, s.as_str());
            },
            WeatherError::Decode(s) => {
                push_str(&mut out, "decode: ");
                push_str(&mut out, s.as_str());
            },
            WeatherError::Upstream(c, b) => {
                push_str(&mut out, "upstream status ");
                push_u64(&mut out, *c as u64);
                push_str(&mut out, ": ");
                push_str(&mut out, b.as_str());
                assert(dec(*c as int) == nat_digits(*c as nat));
            },
            WeatherError::MissingKey => {
                push_str(&mut out, "missing API key");
            },
        }
        assert(out@ =~= weather_error_text(*self));
        out
    }
}

pub fn weather_error_reply(e: &WeatherError) -> (r: (u16, String))
    ensures
        (r.0, r.1@) == weather_error_reply_of(*e),
{
    let mut out = String::new();
    let status: u16 = match e {
        WeatherError::MissingKey => {
            push_str(&mut out, "owm key missing");
            503
        },
        WeatherError::Transport(s) => {
            push_str(&mut out, "owm transport: ");
            push_str(&mut out, s.as_str());
            502
        },
        WeatherError::Decode(s) => {
            push_str(&mut out, "owm decode: ");
            push_str(&mut out, s.as_str());
            502
        },
        WeatherError::Upstream(c, b) => {
            push_str(&mut out, "owm ");
            push_u64(&mut out, *c as u64);
            push_str(&mut out, ": ");
            push_str(&mut out, b.as_str());
            assert(dec(*c as int) == nat_digits(*c as nat));
            502
        },
    };
    assert(out@ =~= weather_error_reply_of(*e).1);
    (status, out)
}

impl OwmProvider {
    pub fn new(api_key: String) -> (r: OwmProvider)
        ensures
            r.api_key@ == api_key@,
    {
        OwmProvider { api_key }
    }

    /// A provider without a key does not call out.
    pub fn check_key(&self) -> (r: Result<(), WeatherError>)
        ensures
            r is Ok <==> self.api_key@.len() > 0,
            r matches Err(e) ==> e is MissingKey,
    {
        if self.api_key.as_str().is_empty() {
            Err(WeatherError::MissingKey)
        } else {
            Ok(())
        }
    }
}

/// A reply with status 400 or above is the upstream's failure, with its
/// body; otherwise the body is the reading.
pub fn upstream_reply(status: u16, body: String) -> (r: Result<String, WeatherError>)
    ensures
        status < 400 ==> (r matches Ok(b) && b@ == body@),
        status >= 400 ==> (r matches Err(WeatherError::Upstream(c, b)) && c == status && b@ == body@),
{
    if status >= 400 {
        Err(WeatherError::Upstream(status, body))
    } else {
        Ok(body)
    }
}

} // verus!
