//! User configuration: its defaults, and the resolution strings the user
//! picks from. Where the file lives and how it is stored is left to the
//! program around the library.
use vstd::prelude::*;

use crate::text::{
    chars_of, decimal, find, find_char, lemma_decimal_lacks, lemma_find_properties, lemma_find_unique,
    lemma_parse_u16_decimal, parse_u16, parse_u16_in,
};

verus! {

/// The stored configuration of the client.
#[derive(Debug, Clone)]
pub struct Config {
    /// Ignore TLS certificate errors (like /cert:ignore in xfreerdp)
    pub cert_ignore: bool,
    /// Allow dynamic window resize
    pub resize: bool,
    /// Default desktop width
    pub default_width: u16,
    /// Default desktop height
    pub default_height: u16,
    /// User preferences
    pub preferences: Preferences,
    /// Cached data (password, etc.)
    pub cache: Cache,
}

/// Choices the user made last time.
#[derive(Debug, Clone)]
pub struct Preferences {
    /// Last used resolution (e.g. "1920x1080")
    pub resolution: String,
    /// Enable clipboard redirection by default
    pub clipboard: bool,
    /// Map local drives by default
    pub map_drives: bool,
    /// Delete .rdp file after connection by default
    pub burn_after_reading: bool,
}

/// Cached secrets.
#[derive(Debug, Clone)]
pub struct Cache {
    /// Cached password
    pub password: Option<String>,
    /// Timestamp when password was cached (ISO 8601)
    pub password_cached_at: Option<String>,
}

/// The resolution used when none was stored.
pub open spec fn default_resolution_text() -> Seq<char> {
    seq!['1', '4', '4', '0', 'x', '9', '0', '0']
}

/// Default of `cert_ignore`.
pub fn default_true() -> (r: bool)
    ensures
        r,
{
    true
}

/// Default desktop width.
pub fn default_width() -> (r: u16)
    ensures
        r == 1280,
{
    1280
}

/// Default desktop height.
pub fn default_height() -> (r: u16)
    ensures
        r == 1024,
{
    1024
}

/// Default resolution preference, `1440x900`.
pub fn default_resolution() -> (r: String)
    ensures
        r@ == default_resolution_text(),
{
    let r = "1440x900".to_owned();
    proof {
        reveal_strlit("1440x900");
    }
    r
}

impl Default for Cache {
    fn default() -> (r: Self)
        ensures
            r.password is None,
            r.password_cached_at is None,
    {
        Cache { password: None, password_cached_at: None }
    }
}

impl Default for Preferences {
    fn default() -> (r: Self)
        ensures
            r.resolution@ == default_resolution_text(),
            !r.clipboard,
            !r.map_drives,
            !r.burn_after_reading,
    {
        Preferences {
            resolution: default_resolution(),
            clipboard: false,
            map_drives: false,
            burn_after_reading: false,
        }
    }
}

impl Default for Config {
    fn default() -> (r: Self)
        ensures
            r.cert_ignore,
            !r.resize,
            r.default_width == 1280,
            r.default_height == 1024,
            r.preferences.resolution@ == default_resolution_text(),
            !r.preferences.clipboard,
            !r.preferences.map_drives,
            !r.preferences.burn_after_reading,
            r.cache.password is None,
            r.cache.password_cached_at is None,
    {
        Config {
            cert_ignore: true,
            resize: false,
            default_width: 1280,
            default_height: 1024,
            preferences: Preferences::default(),
            cache: Cache::default(),
        }
    }
}

/// `WIDTHxHEIGHT` read as `s.split('x')`: exactly two parts, each a `u16`.
pub open spec fn resolution_of(s: Seq<char>) -> Option<(u16, u16)> {
    match find(s, 'x') {
        None => None,
        Some(i) => {
            let width = s.take(i as int);
            let rest = s.skip(i as int + 1);
            if find(rest, 'x') is Some {
                None
            } else {
                match (parse_u16(width), parse_u16(rest)) {
                    (Some(w), Some(h)) => Some((w, h)),
                    _ => None,
                }
            }
        },
    }
}

impl Config {
    /// Parse resolution string like "1920x1080" into (width, height).
    pub fn parse_resolution(res: &str) -> (r: Option<(u16, u16)>)
        ensures
            r == resolution_of(res@),
    {
        let cs = chars_of(res);
        let n = cs.len();
        let i = find_char(&cs, 0, n, 'x');
        assert(cs@.subrange(0, n as int) =~= res@);
        if i == n {
            return None;
        }
        let j = find_char(&cs, i + 1, n, 'x');
        assert(cs@.subrange(i + 1, n as int) =~= res@.skip(i + 1));
        assert(cs@.subrange(0, i as int) =~= res@.take(i as int));
        if j < n {
            return None;
        }
        let width = parse_u16_in(&cs, 0, i);
        let height = parse_u16_in(&cs, i + 1, n);
        match (width, height) {
            (Some(w), Some(h)) => Some((w, h)),
            _ => None,
        }
    }

    /// Applies a resolution preference: when it reads as `WIDTHxHEIGHT`, it
    /// becomes the desktop size; otherwise nothing changes.
    pub fn apply_resolution(&mut self, resolution: &str)
        ensures
            match resolution_of(resolution@) {
                Some((w, h)) => final(self).default_width == w && final(self).default_height == h,
                None => final(self).default_width == old(self).default_width
                    && final(self).default_height == old(self).default_height,
            },
            final(self).cert_ignore == old(self).cert_ignore,
            final(self).resize == old(self).resize,
            final(self).preferences == old(self).preferences,
            final(self).cache == old(self).cache,
    {
        if let Some((width, height)) = Config::parse_resolution(resolution) {
            self.default_width = width;
            self.default_height = height;
        }
    }
}

/// A resolution written `WIDTHxHEIGHT` in decimal reads back as that width
/// and height.
pub proof fn lemma_resolution_roundtrip(width: u16, height: u16)
    ensures
        resolution_of(decimal(width as nat) + seq!['x'] + decimal(height as nat)) == Some(
            (width, height),
        ),
{
    let dw = decimal(width as nat);
    let dh = decimal(height as nat);
    let s = dw + seq!['x'] + dh;
    lemma_decimal_lacks(width as nat, 'x');
    lemma_decimal_lacks(height as nat, 'x');
    lemma_find_properties(dw, 'x');
    assert forall|j: int| 0 <= j < dw.len() implies s[j] != 'x' by {
        assert(s[j] == dw[j]);
    }
    lemma_find_unique(s, 'x', dw.len() as int);
    assert(s.take(dw.len() as int) =~= dw);
    assert(s.skip(dw.len() as int + 1) =~= dh);
    lemma_parse_u16_decimal(width);
    lemma_parse_u16_decimal(height);
}

/// Common resolution presets for the dropdown.
pub fn resolutions() -> (r: Vec<&'static str>)
    ensures
        r.len() == 11,
        r@[0]@ == "1024x768"@,
        r@[1]@ == "1280x720"@,
        r@[2]@ == "1280x1024"@,
        r@[3]@ == "1366x768"@,
        r@[4]@ == "1440x900"@,
        r@[5]@ == "1600x900"@,
        r@[6]@ == "1920x1080"@,
        r@[7]@ == "1920x1200"@,
        r@[8]@ == "2560x1440"@,
        r@[9]@ == "2560x1600"@,
        r@[10]@ == "3840x2160"@,
{
    vec![
        "1024x768",
        "1280x720",
        "1280x1024",
        "1366x768",
        "1440x900",
        "1600x900",
        "1920x1080",
        "1920x1200",
        "2560x1440",
        "2560x1600",
        "3840x2160",
    ]
}

} // verus!
