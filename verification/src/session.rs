//! The command line's local state and settings: where the saved login lives,
//! when a saved token expires, the server endpoints, and the flag that
//! selects fixed-point inference.
use vstd::prelude::*;
use crate::text::{chars_of, string_of};

verus! {

/// `base` extended by the relative path `rel`, as `PathBuf::push` does on
/// Unix: an absolute `rel` replaces `base`; otherwise a `/` is put between
/// them unless `base` is empty or already ends with one.
pub open spec fn join_path_spec(base: Seq<char>, rel: Seq<char>) -> Seq<char> {
    if rel.len() > 0 && rel[0] == '/' {
        rel
    } else if base.len() == 0 || base.last() == '/' {
        base + rel
    } else {
        base + seq!['/'] + rel
    }
}

/// Joins `rel` onto `base`.
pub fn join_path(base: &str, rel: &str) -> (r: String)
    ensures
        r@ == join_path_spec(base@, rel@),
{
    let b = chars_of(base);
    let r = chars_of(rel);
    if r.len() > 0 && r[0] == '/' {
        return rel.to_owned();
    }
    let mut out = base.to_owned();
    if !(b.len() == 0 || b[b.len() - 1] == '/') {
        proof {
            reveal_strlit("/");
        }
        out.append("/");
    }
    out.append(rel);
    out
}

/// The configuration directory: `VERSE_CONFIG_DIR` when set; else
/// `$XDG_CONFIG_HOME/verse`; else `$HOME/.config/verse`, with `.` for an unset
/// `HOME`.
pub open spec fn config_dir_spec(verse_config_dir: Option<Seq<char>>, xdg_config_home: Option<Seq<char>>, home: Option<Seq<char>>) -> Seq<char> {
    match verse_config_dir {
        Some(dir) => dir,
        None => match xdg_config_home {
            Some(xdg) => join_path_spec(xdg, "verse"@),
            None => {
                let h = match home {
                    Some(h) => h,
                    None => "."@,
                };
                join_path_spec(join_path_spec(h, ".config"@), "verse"@)
            },
        },
    }
}

pub open spec fn opt_view(s: Option<String>) -> Option<Seq<char>> {
    match s {
        Some(x) => Some(x@),
        None => None,
    }
}

/// The configuration directory, from the values of the environment variables
/// `VERSE_CONFIG_DIR`, `XDG_CONFIG_HOME` and `HOME` (`None` when unset).
pub fn config_dir(verse_config_dir: Option<String>, xdg_config_home: Option<String>, home: Option<String>) -> (r: String)
    ensures
        r@ == config_dir_spec(opt_view(verse_config_dir), opt_view(xdg_config_home), opt_view(home)),
{
    match verse_config_dir {
        Some(dir) => dir,
        None => match xdg_config_home {
            Some(xdg) => join_path(xdg.as_str(), "verse"),
            None => {
                let h = match home {
                    Some(h) => h,
                    None => ".".to_owned(),
                };
                let dot_config = join_path(h.as_str(), ".config");
                join_path(dot_config.as_str(), "verse")
            },
        },
    }
}

/// The file of the saved login inside the configuration directory.
pub fn auth_path(config_dir: &str) -> (r: String)
    ensures
        r@ == join_path_spec(config_dir@, "auth.json"@),
{
    join_path(config_dir, "auth.json")
}

/// A saved login.
#[derive(Debug)]
pub struct AuthStore {
    pub access_token: String,
    pub token_type: String,
    /// Seconds since the Unix epoch after which the token is not used.
    pub expires_at: u64,
}

/// Why a saved login cannot be used.
#[derive(Debug, PartialEq, Eq, Structural, Clone, Copy)]
pub enum AuthError {
    /// The token has expired: the user must log in again.
    Expired,
}

/// Accepts a saved login at time `now` (seconds since the Unix epoch) unless
/// its token has expired.
pub fn load_auth(auth: AuthStore, now: u64) -> (r: Result<AuthStore, AuthError>)
    ensures
        r is Err <==> now >= auth.expires_at,
        r matches Ok(a) ==> a == auth,
        r matches Err(e) ==> e == AuthError::Expired,
{
    if now >= auth.expires_at {
        Err(AuthError::Expired)
    } else {
        Ok(auth)
    }
}

/// Seconds kept off a token's lifetime so that it is not used at the edge of
/// its expiry.
pub const EXPIRY_SKEW_SECS: u64 = 30;

/// When a token that the server issued at `now` for `expires_in` seconds is
/// to be treated as expired: `now + (expires_in - 30)`, the subtraction
/// saturating at zero.
pub fn token_expires_at(now: u64, expires_in: u64) -> (r: u64)
    requires
        now + (if expires_in >= 30 { expires_in - 30 } else { 0 }) <= u64::MAX,
    ensures
        r == now + (if expires_in >= 30 { expires_in - 30 } else { 0 }),
{
    now + expires_in.saturating_sub(EXPIRY_SKEW_SECS)
}

/// `s` without its trailing `/` characters, as `trim_end_matches('/')`
/// returns it.
pub open spec fn trim_trailing_slashes(s: Seq<char>) -> Seq<char>
    decreases s.len(),
{
    if s.len() > 0 && s.last() == '/' {
        trim_trailing_slashes(s.drop_last())
    } else {
        s
    }
}

/// The URL of `route` (which starts with `/`) on the server at `base_url`:
/// the base without its trailing slashes, then the route.
pub fn api_endpoint(base_url: &str, route: &str) -> (r: String)
    ensures
        r@ == trim_trailing_slashes(base_url@) + route@,
{
    let cs = chars_of(base_url);
    let mut end = cs.len();
    assert(cs@.subrange(0, end as int) == cs@);
    while end > 0 && cs[end - 1] == '/'
        invariant
            end <= cs@.len(),
            trim_trailing_slashes(cs@) == trim_trailing_slashes(cs@.subrange(0, end as int)),
        decreases end,
    {
        assert(cs@.subrange(0, end as int).drop_last() == cs@.subrange(0, end - 1));
        end = end - 1;
    }
    let mut out = string_of(&cs, 0, end);
    out.append(route);
    out
}

/// `s` with its ASCII capitals turned into small letters, as
/// `to_ascii_lowercase` does.
pub open spec fn ascii_lower(s: Seq<char>) -> Seq<char> {
    s.map_values(|c: char| if 'A' <= c <= 'Z' { ((c as u32) + 32) as char } else { c })
}

/// Whether an optimisation setting switches fixed-point inference on: one of
/// `1`, `true`, `yes`, `on`, in any ASCII case.
pub open spec fn is_on_setting(v: Seq<char>) -> bool {
    let l = ascii_lower(v);
    l == "1"@ || l == "true"@ || l == "yes"@ || l == "on"@
}

fn lower_ascii(s: &str) -> (r: String)
    ensures
        r@ == ascii_lower(s@),
{
    let cs = chars_of(s);
    let mut out: Vec<char> = Vec::new();
    let mut i: usize = 0;
    while i < cs.len()
        invariant
            i <= cs@.len(),
            out@ == ascii_lower(cs@.take(i as int)),
        decreases cs@.len() - i,
    {
        let c = cs[i];
        let l = if 'A' <= c && c <= 'Z' {
            let code: u32 = (c as u32) + 32;
            assert(0x61 <= code <= 0x7a);
            let b: u8 = code as u8;
            b as char
        } else {
            c
        };
        out.push(l);
        assert(cs@.take(i + 1) == cs@.take(i as int).push(c));
        i = i + 1;
    }
    assert(cs@.take(cs@.len() as int) == cs@);
    string_of(&out, 0, out.len())
}

/// The inference mode flag from the value of `VERSE_OPTIMIZED` (`None` when
/// unset): 1 for fixed point, 0 for floating point.
pub fn optimization_flag(value: Option<&str>) -> (r: u32)
    ensures
        r == (match value {
            Some(v) => if is_on_setting(v@) { 1u32 } else { 0u32 },
            None => 0u32,
        }),
{
    match value {
        Some(v) => {
            let l = lower_ascii(v);
            if l == "1".to_owned() || l == "true".to_owned() || l == "yes".to_owned() || l == "on".to_owned() {
                1
            } else {
                0
            }
        },
        None => 0,
    }
}

} // verus!
