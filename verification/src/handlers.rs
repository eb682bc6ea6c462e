//! Request-handler support: timestamps, render timing, error pages
//! and session checks.  The HTTP layer itself lives outside the
//! library and hands in plain values.

use vstd::prelude::*;
use vstd::string::StringExecFns;
use crate::strutil::{u64_to_dec, spec_u64_digits, str_eq, spec_replace_all, replace_all};

verus! {

/// Relies on SystemTime::now and duration_since(UNIX_EPOCH): the
/// current Unix time in milliseconds, positive when the clock stands
/// after the epoch and negated when before it.
#[verifier::external_body]
fn now_unix_millis() -> (r: Result<u128, u128>)
{
    match std::time::SystemTime::now().duration_since(std::time::UNIX_EPOCH) {
        Ok(d) => Ok(d.as_millis()),
        Err(e) => Err(e.duration().as_millis()),
    }
}

/// The current time as signed Unix milliseconds: non-negative after
/// the epoch, negative before it.
pub fn create_timestamp() -> (r: i64)
{
    // i64 holds enough milliseconds for many millions of years, so
    // the truncating cast never matters for a sane clock
    match now_unix_millis() {
        Ok(d) => #[verifier::truncate] (d as i64),
        Err(d) => {
            let m: i64 = #[verifier::truncate] (d as i64);
            if m == i64::MIN {
                i64::MAX
            } else {
                -m
            }
        },
    }
}

/// An elapsed duration shown with its unit: microseconds below one
/// millisecond, milliseconds from there on.
pub open spec fn spec_elapsed_parts(micros: int) -> (int, char) {
    if micros < 1000 {
        (micros, 'µ')
    } else {
        (micros / 1000, 'm')
    }
}

/// The log line for a rendering step: what was rendered, its optional
/// name, the optional page, and how long it took.
pub fn log_elapsed(thing: &str, thing_name: Option<&str>, page: Option<usize>, micros: u64) -> (r:
    String)
    ensures
        ({
            let parts = spec_elapsed_parts(micros as int);
            let named = match thing_name {
                Some(t) => " `"@ + t@ + "`"@,
                None => Seq::<char>::empty(),
            };
            let paged = match page {
                Some(p) => " ("@ + spec_u64_digits(p as int) + ")"@,
                None => Seq::<char>::empty(),
            };
            r@ == "Rendered "@ + thing@ + named + paged + " in "@ + spec_u64_digits(parts.0)
                + seq![parts.1] + "s"@
        }),
{
    let (amount, unit): (u64, char) = if micros < 1000 {
        (micros, 'µ')
    } else {
        (micros / 1000, 'm')
    };
    let mut out: String = String::new();
    out.append("Rendered ");
    out.append(thing);
    match thing_name {
        Some(t) => {
            out.append(" `");
            out.append(t);
            out.append("`");
        },
        None => {
        },
    }
    match page {
        Some(p) => {
            out.append(" (");
            let d: String = crate::strutil::usize_to_dec(p);
            out.append(d.as_str());
            out.append(")");
        },
        None => {
        },
    }
    out.append(" in ");
    let a: String = u64_to_dec(amount);
    out.append(a.as_str());
    crate::strutil::string_push_char(&mut out, unit);
    out.append("s");
    proof {
        assert(out@ =~= ({
            let parts = spec_elapsed_parts(micros as int);
            let named = match thing_name {
                Some(t) => " `"@ + t@ + "`"@,
                None => Seq::<char>::empty(),
            };
            let paged = match page {
                Some(p) => " ("@ + spec_u64_digits(p as int) + ")"@,
                None => Seq::<char>::empty(),
            };
            "Rendered "@ + thing@ + named + paged + " in "@ + spec_u64_digits(parts.0)
                + seq![parts.1] + "s"@
        }));
    }
    out
}

/// The theme a request selects: the cookie's value, or the default.
pub fn theme(cookie: Option<&str>) -> (r: String)
    ensures
        match cookie {
            Some(c) => r@ == c@,
            None => r@ == "light"@,
        },
{
    match cookie {
        Some(c) => c.to_owned(),
        None => "light".to_owned(),
    }
}

/// The text of an error page: the template with its placeholder
/// replaced by the message, or the bare message without a template.
pub fn render_error_message(message: &str, template: Option<&str>) -> (r: String)
    ensures
        match template {
            Some(t) => r@ == spec_replace_all(t@, "####"@, message@),
            None => r@ == message@,
        },
{
    match template {
        Some(t) => {
            proof {
                reveal_strlit("####");
            }
            replace_all(t, "####", message)
        },
        None => message.to_owned(),
    }
}

/// Must this request log in first?  True unless both sides hold a
/// session id and they agree.
pub fn needs_to_log_in(session_id: Option<&str>, cookie_session_id: Option<&str>) -> (r: bool)
    ensures
        r == !(session_id matches Some(s) && cookie_session_id matches Some(c) && s@ == c@),
{
    match (session_id, cookie_session_id) {
        (Some(s), Some(c)) => !str_eq(s, c),
        _ => true,
    }
}

/// A comment as the posting endpoint receives it, before it gets its
/// typographic pass and timestamp.
#[derive(Debug, Clone)]
pub struct JsonComment {
    pub author: String,
    pub author_url: String,
    pub text: String,
}

impl JsonComment {
    /// The stored comment this posting becomes: its text typographically
    /// polished, stamped with the given time.
    pub fn into_comment(self, timestamp: i64) -> (r: crate::comments::Comment)
        ensures
            r.author == self.author,
            r.author_url == self.author_url,
            r.text@ == crate::typography::spec_typogrified(self.text@),
            r.timestamp == timestamp,
    {
        crate::comments::Comment {
            text: crate::typography::typogrified(self.text.as_str()),
            author: self.author,
            author_url: self.author_url,
            timestamp,
        }
    }
}

/// Spaces in an uploaded file name replaced with hyphens.
pub fn sanitize_file_name(file_name: &str) -> (r: String)
    ensures
        r@ == spec_replace_all(file_name@, seq![' '], seq!['-']),
{
    proof {
        reveal_strlit(" ");
        reveal_strlit("-");
        assert(" "@ =~= seq![' ']);
        assert("-"@ =~= seq!['-']);
    }
    replace_all(file_name, " ", "-")
}

} // verus!
