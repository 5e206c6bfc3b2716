//! Activation via the environment: the `SPONSORED_LOGS*` switches, read
//! through a caller-supplied lookup.

use vstd::prelude::*;

use crate::chars::{normalize, same_chars};
use crate::color::Color;
use crate::{Config, Selection};

verus! {

/// Whether a raw setting is truthy: after trimming and ASCII lower-casing it
/// is `1`, `true`, `yes` or `on`.
pub open spec fn is_truthy(value: Seq<char>) -> bool {
    let v = crate::chars::normalized(value);
    ||| v == seq!['1']
    ||| v == seq!['t', 'r', 'u', 'e']
    ||| v == seq!['y', 'e', 's']
    ||| v == seq!['o', 'n']
}

/// Whether a looked-up variable requests activation: present and truthy.
pub open spec fn requests(value: Option<String>) -> bool {
    match value {
        Some(s) => is_truthy(s@),
        None => false,
    }
}

/// Whether `value` is one of the recognized truthy settings
/// (case-insensitive, surrounding white space ignored).
pub fn truthy(value: &str) -> (t: bool)
    ensures
        t == is_truthy(value@),
{
    let v = normalize(value);
    let one = vec!['1'];
    let yes_word = vec!['t', 'r', 'u', 'e'];
    let yes = vec!['y', 'e', 's'];
    let on = vec!['o', 'n'];
    assert(one@ =~= seq!['1']);
    assert(yes_word@ =~= seq!['t', 'r', 'u', 'e']);
    assert(yes@ =~= seq!['y', 'e', 's']);
    assert(on@ =~= seq!['o', 'n']);
    let a = same_chars(&v, &one);
    let b = same_chars(&v, &yes_word);
    let c = same_chars(&v, &yes);
    let d = same_chars(&v, &on);
    a || b || c || d
}

/// Whether `SPONSORED_LOGS` requests activation, against a caller-supplied
/// lookup: the variable must be present and truthy.
pub fn activate_with(get: impl Fn(&str) -> Option<String>) -> (on: bool)
    requires
        forall|k: &str| call_requires(get, (k,)),
    ensures
        exists|v: Option<String>|
            call_ensures(get, ("SPONSORED_LOGS",), v) && on == requests(v),
{
    let v = get("SPONSORED_LOGS");
    let on = match &v {
        Some(s) => truthy(s.as_str()),
        None => false,
    };
    assert(call_ensures(get, ("SPONSORED_LOGS",), v) && on == requests(v));
    on
}

/// The tag a looked-up `SPONSORED_LOGS_PREFIX` sets: the value as given
/// when present, else the default `[AD]`.
pub open spec fn prefix_setting(value: Option<String>) -> Seq<char> {
    match value {
        Some(s) => s@,
        None => "[AD]"@,
    }
}

/// The selection a looked-up `SPONSORED_LOGS_SELECTION` sets.
pub open spec fn selection_setting(value: Option<String>) -> Selection {
    match value {
        Some(s) => crate::selection_named(s@),
        None => Selection::Weight,
    }
}

/// The color mode a looked-up `SPONSORED_LOGS_COLOR` sets.
pub open spec fn color_setting(value: Option<String>) -> Color {
    match value {
        Some(s) => crate::color::color_named(s@),
        None => Color::Auto,
    }
}

/// Build a `Config` from `SPONSORED_LOGS_*` overrides, against a
/// caller-supplied lookup. Only variables actually present override the
/// defaults: `_PREFIX` sets the tag as given, `_SELECTION` the selection,
/// `_ASCII_ONLY` the portable borders (when truthy) and `_COLOR` the color
/// mode. The demand pool is the built-in book.
pub fn config_with(get: impl Fn(&str) -> Option<String>) -> (c: Config)
    requires
        forall|k: &str| call_requires(get, (k,)),
    ensures
        crate::is_default_pool(c.ads@),
        exists|v: Option<String>|
            call_ensures(get, ("SPONSORED_LOGS_PREFIX",), v) && c.ad_prefix@ == prefix_setting(v),
        exists|v: Option<String>|
            call_ensures(get, ("SPONSORED_LOGS_SELECTION",), v) && c.selection
                == selection_setting(v),
        exists|v: Option<String>|
            call_ensures(get, ("SPONSORED_LOGS_ASCII_ONLY",), v) && c.ascii_only == requests(v),
        exists|v: Option<String>|
            call_ensures(get, ("SPONSORED_LOGS_COLOR",), v) && c.color == color_setting(v),
{
    let mut config = Config::default();
    let prefix = get("SPONSORED_LOGS_PREFIX");
    let ghost prefix_v = prefix;
    match prefix {
        Some(v) => {
            config.ad_prefix = v;
        },
        None => {},
    }
    let selection = get("SPONSORED_LOGS_SELECTION");
    match &selection {
        Some(v) => {
            config.selection = Selection::from_env_str(v.as_str());
        },
        None => {},
    }
    let ascii = get("SPONSORED_LOGS_ASCII_ONLY");
    match &ascii {
        Some(v) => {
            config.ascii_only = truthy(v.as_str());
        },
        None => {},
    }
    let color = get("SPONSORED_LOGS_COLOR");
    match &color {
        Some(v) => {
            config.color = Color::from_env_str(v.as_str());
        },
        None => {},
    }
    assert(call_ensures(get, ("SPONSORED_LOGS_PREFIX",), prefix_v) && config.ad_prefix@
        == prefix_setting(prefix_v));
    assert(call_ensures(get, ("SPONSORED_LOGS_SELECTION",), selection) && config.selection
        == selection_setting(selection));
    assert(call_ensures(get, ("SPONSORED_LOGS_ASCII_ONLY",), ascii) && config.ascii_only
        == requests(ascii));
    assert(call_ensures(get, ("SPONSORED_LOGS_COLOR",), color) && config.color == color_setting(
        color,
    ));
    config
}

/// The recognized truthy settings are exactly `1`, `true`, `yes` and `on`,
/// read without surrounding white space and without regard to ASCII case:
/// a setting is truthy if and only if, trimmed and lower-cased, it is one of
/// those four, so `off`, `0`, `false`, `no` and every other value are not,
/// and such a `SPONSORED_LOGS` leaves the exchange inert.
pub proof fn lemma_truthy_values(value: Seq<char>)
    ensures
        is_truthy(value) <==> set![seq!['1'], seq!['t', 'r', 'u', 'e'], seq!['y', 'e', 's'], seq![
            'o',
            'n',
        ]].contains(crate::chars::lowercase(crate::chars::trim(value))),
{
}

} // verus!
