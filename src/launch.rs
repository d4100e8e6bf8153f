//! The client URIs that start an action on an item.

use vstd::prelude::*;
use vstd::string::StringSliceAdditionalSpecFns;
use crate::text::{chars_of, parse_u64_str, parse_u64_spec, decimal, decimal_chars, string_of, str_equal};

verus! {

/// The bytes that form encoding leaves as they are.
pub open spec fn form_unchanged(b: u8) -> bool {
    b == 42 || b == 45 || b == 46 || (48 <= b <= 57) || (65 <= b <= 90) || b == 95 || (97 <= b
        <= 122)
}

pub open spec fn hex_upper(n: int) -> char {
    if n < 10 {
        ((n + 48) as u8) as char
    } else {
        ((n + 55) as u8) as char
    }
}

pub open spec fn form_encode_byte(b: u8) -> Seq<char> {
    if form_unchanged(b) {
        seq![b as char]
    } else if b == 32 {
        seq!['+']
    } else {
        seq!['%', hex_upper(b as int / 16), hex_upper(b as int % 16)]
    }
}

/// The `application/x-www-form-urlencoded` form of some bytes: `*-._`,
/// digits and ASCII letters kept, space as `+`, anything else as `%XX`.
pub open spec fn form_encode(bs: Seq<u8>) -> Seq<char>
    decreases bs.len(),
{
    if bs.len() == 0 {
        seq![]
    } else {
        form_encode(bs.drop_last()) + form_encode_byte(bs.last())
    }
}

/// Relies on `url::form_urlencoded::byte_serialize`: the form encoding of
/// the text's UTF-8 bytes, as its source writes it byte by byte.
#[verifier::external_body]
fn form_urlencode(s: &str) -> (r: String)
    ensures
        r@ == form_encode(s.spec_bytes()),
{
    url::form_urlencoded::byte_serialize(s.as_bytes()).collect::<String>()
}

/// Launch options as they stand in a run URI.
pub fn encode_steam_launch_options(launch_options: &str) -> (r: String)
    ensures
        r@ == form_encode(launch_options.spec_bytes()),
{
    form_urlencode(launch_options)
}

/// Why no URI can be made for an action.
#[derive(Debug, Clone, Copy, PartialEq, Eq, Structural)]
pub enum LaunchError {
    /// Only the one client provider has URIs.
    UnsupportedProvider,
    /// The item identifier is not a number.
    NonNumericExternalId,
    /// The action is none of `play`, `install`, `validate`, `backup`.
    UnsupportedAction,
}

/// The URI for an action on an item: `steam://run/<id>` (with
/// `//<options>/` where launch options are given), or
/// `steam://install/<id>`, `steam://validate/<id>`, `steam://backup/<id>`.
pub open spec fn game_uri_spec(
    provider: Seq<char>,
    external_id: Seq<char>,
    action: Seq<char>,
    launch_options: Option<Seq<u8>>,
) -> Result<Seq<char>, LaunchError> {
    if provider != "steam"@ {
        Err(LaunchError::UnsupportedProvider)
    } else {
        match parse_u64_spec(external_id) {
            None => Err(LaunchError::NonNumericExternalId),
            Some(id) => {
                let d = decimal(id as nat);
                if action == "play"@ {
                    match launch_options {
                        Some(o) => Ok("steam://run/"@ + d + "//"@ + form_encode(o) + "/"@),
                        None => Ok("steam://run/"@ + d),
                    }
                } else if action == "install"@ {
                    Ok("steam://install/"@ + d)
                } else if action == "validate"@ {
                    Ok("steam://validate/"@ + d)
                } else if action == "backup"@ {
                    Ok("steam://backup/"@ + d)
                } else {
                    Err(LaunchError::UnsupportedAction)
                }
            },
        }
    }
}

fn append_str(v: &mut Vec<char>, s: &str)
    ensures
        final(v)@ == old(v)@ + s@,
{
    let mut c = chars_of(s);
    v.append(&mut c);
}

/// Builds the URI for an action on an item.
pub fn steam_game_uri(
    provider: &str,
    external_id: &str,
    action: &str,
    launch_options: Option<&str>,
) -> (r: Result<String, LaunchError>)
    ensures
        match game_uri_spec(
            provider@,
            external_id@,
            action@,
            match launch_options {
                Some(o) => Some(o.spec_bytes()),
                None => None,
            },
        ) {
            Ok(u) => r is Ok && r->Ok_0@ == u,
            Err(e) => r == Err::<String, LaunchError>(e),
        },
{
    if !str_equal(provider, "steam") {
        return Err(LaunchError::UnsupportedProvider);
    }
    let id = match parse_u64_str(external_id) {
        Some(v) => v,
        None => {
            return Err(LaunchError::NonNumericExternalId);
        },
    };
    let mut d = decimal_chars(id);
    let mut out: Vec<char> = Vec::new();
    if str_equal(action, "play") {
        append_str(&mut out, "steam://run/");
        out.append(&mut d);
        if let Some(o) = launch_options {
            let enc = encode_steam_launch_options(o);
            append_str(&mut out, "//");
            append_str(&mut out, enc.as_str());
            append_str(&mut out, "/");
        }
    } else if str_equal(action, "install") {
        append_str(&mut out, "steam://install/");
        out.append(&mut d);
    } else if str_equal(action, "validate") {
        append_str(&mut out, "steam://validate/");
        out.append(&mut d);
    } else if str_equal(action, "backup") {
        append_str(&mut out, "steam://backup/");
        out.append(&mut d);
    } else {
        return Err(LaunchError::UnsupportedAction);
    }
    Ok(string_of(out.as_slice()))
}

} // verus!
