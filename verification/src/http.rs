//! The proxy setting the app's outbound HTTP client is built with, and what of it may be logged.

use vstd::prelude::*;
use crate::text::{chars_of, find_sub, find_sub_in, string_of, trim, trim_bounds};

verus! {

/// The user's proxy, fixed the first time one is given: the client reads it when it is built,
/// so a later setting changes nothing until a restart.
pub struct ProxySetting {
    proxy: Option<String>,
}

impl ProxySetting {
    /// The proxy in force, if one was set.
    pub closed spec fn value(self) -> Option<Seq<char>> {
        match self.proxy {
            Some(p) => Some(p@),
            None => None,
        }
    }

    /// No proxy yet.
    pub fn new() -> (s: ProxySetting)
        ensures
            s.value() is None,
    {
        ProxySetting { proxy: None }
    }

    /// The proxy in force, if one was set.
    pub fn get(&self) -> (r: Option<&str>)
        ensures
            match r {
                Some(p) => self.value() == Some(p@),
                None => self.value() is None,
            },
    {
        match &self.proxy {
            Some(p) => Some(p.as_str()),
            None => None,
        }
    }
}

/// The proxy a setting names: the trimmed text, when it is not blank.
pub open spec fn proxy_named(proxy: Option<Seq<char>>) -> Option<Seq<char>> {
    match proxy {
        Some(p) => if trim(p).len() > 0 {
            Some(trim(p))
        } else {
            None
        },
        None => None,
    }
}

/// Points the client at the user's proxy. Only the first proxy given takes effect; a blank or
/// absent one is ignored.
pub fn set_proxy(setting: &mut ProxySetting, proxy: Option<&str>)
    ensures
        final(setting).value() == match old(setting).value() {
            Some(p) => Some(p),
            None => proxy_named(
                match proxy {
                    Some(p) => Some(p@),
                    None => None,
                },
            ),
        },
{
    if setting.proxy.is_some() {
        return;
    }
    if let Some(p) = proxy {
        let v = chars_of(p);
        let (a, b) = trim_bounds(&v, 0, v.len());
        proof {
            assert(v@.subrange(0, v@.len() as int) == v@);
        }
        if a < b {
            setting.proxy = Some(string_of(&v[a..b]));
        }
    }
}

/// Whether the client was pointed at a user proxy.
pub fn has_proxy(setting: &ProxySetting) -> (b: bool)
    ensures
        b == setting.value() is Some,
{
    setting.proxy.is_some()
}


/// What the log may say of a proxy the client could not use: its scheme only (the text before
/// `://`), or `(none)`. The rest can carry credentials, and the log is what users attach to bug
/// reports.
pub open spec fn loggable_scheme_text(proxy: Seq<char>) -> Seq<char> {
    match find_sub(proxy, "://"@) {
        Some(i) => proxy.take(i),
        None => "(none)"@,
    }
}

/// The part of an unusable proxy setting that may be logged.
pub fn loggable_scheme(proxy: &str) -> (r: String)
    ensures
        r@ == loggable_scheme_text(proxy@),
{
    let v = chars_of(proxy);
    let sep = chars_of("://");
    match find_sub_in(&v, &sep) {
        Some(i) => {
            proof {
                crate::text::lemma_find_sub_from(v@, sep@, 0);
                assert(v@.subrange(0, i as int) == v@.take(i as int));
            }
            string_of(&v[0..i])
        },
        None => string_of(&chars_of("(none)")),
    }
}

} // verus!
