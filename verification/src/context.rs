//! The `context` object sent in every InnerTube request body.

use vstd::prelude::*;
use crate::text::{chars_of, opt_seq, push_str, str_eq, string_of};

verus! {

/// Locale: `gl` = country code, `hl` = BCP-47 language tag.
#[derive(Debug, Clone)]
pub struct Locale {
    pub gl: String,
    pub hl: String,
}

impl Default for Locale {
    fn default() -> (l: Locale)
        ensures
            l.gl@ == seq!['U', 'S'],
            l.hl@ == seq!['e', 'n'],
    {
        let gl = vec!['U', 'S'];
        let hl = vec!['e', 'n'];
        proof {
            assert(gl@ == seq!['U', 'S']);
            assert(hl@ == seq!['e', 'n']);
        }
        Locale { gl: string_of(&gl), hl: string_of(&hl) }
    }
}

/// The `Accept-Language` for a language tag: English asks for US English first; any other
/// language asks for itself, then English at a lower weight.
pub open spec fn accept_language_text(hl: Seq<char>) -> Seq<char> {
    if hl == seq!['e', 'n'] {
        seq!['e', 'n', '-', 'U', 'S', ',', 'e', 'n', ';', 'q', '=', '0', '.', '9']
    } else {
        hl + seq![',', 'e', 'n', ';', 'q', '=', '0', '.', '5']
    }
}

impl Locale {
    /// The `Accept-Language` to send alongside this locale, so that the headers ask for the same
    /// language as the body does.
    pub fn accept_language(&self) -> (r: String)
        ensures
            r@ == accept_language_text(self.hl@),
    {
        let en = vec!['e', 'n'];
        let en_s = string_of(&en);
        proof {
            assert(en@ == seq!['e', 'n']);
        }
        if str_eq(self.hl.as_str(), en_s.as_str()) {
            let v = vec!['e', 'n', '-', 'U', 'S', ',', 'e', 'n', ';', 'q', '=', '0', '.', '9'];
            proof {
                assert(v@ == accept_language_text(self.hl@));
            }
            string_of(&v)
        } else {
            let mut v = chars_of(self.hl.as_str());
            let tail = vec![',', 'e', 'n', ';', 'q', '=', '0', '.', '5'];
            crate::text::push_all(&mut v, &tail);
            proof {
                assert(v@ == accept_language_text(self.hl@));
            }
            string_of(&v)
        }
    }
}

/// The client part of the context: which client this is, and the locale.
#[derive(Debug, Clone)]
pub struct Client {
    pub client_name: String,
    pub client_version: String,
    pub os_name: Option<String>,
    pub os_version: Option<String>,
    pub device_make: Option<String>,
    pub device_model: Option<String>,
    pub android_sdk_version: Option<String>,
    pub gl: String,
    pub hl: String,
    pub visitor_data: Option<String>,
}

/// Present for embedded clients; the embed URL is filled per video.
#[derive(Debug, Clone)]
pub struct ThirdParty {
    pub embed_url: String,
}

/// The request part of the context.
#[derive(Debug, Clone)]
pub struct Request {
    pub internal_experiment_flags: Vec<String>,
    pub use_ssl: bool,
}

impl Default for Request {
    fn default() -> (r: Request)
        ensures
            r.internal_experiment_flags@.len() == 0,
            r.use_ssl,
    {
        Request { internal_experiment_flags: Vec::new(), use_ssl: true }
    }
}

/// The user part of the context: which identity the request acts for.
#[derive(Debug, Clone)]
pub struct User {
    pub locked_safety_mode: bool,
    pub on_behalf_of_user: Option<String>,
}

/// The whole `context` object.
#[derive(Debug, Clone)]
pub struct Context {
    pub client: Client,
    pub third_party: Option<ThirdParty>,
    pub request: Request,
    pub user: User,
}

/// One InnerTube client identity: what it calls itself and what it can do.
#[derive(Debug, Clone)]
pub struct YouTubeClient {
    pub client_name: String,
    pub client_version: String,
    pub os_name: Option<String>,
    pub os_version: Option<String>,
    pub device_make: Option<String>,
    pub device_model: Option<String>,
    pub android_sdk_version: Option<String>,
    /// Whether this client must send the `thirdParty` embed block.
    pub is_embedded: bool,
    /// Whether this client can act for a signed-in identity.
    pub login_supported: bool,
}

fn copy_opt_str(o: Option<&str>) -> (r: Option<String>)
    ensures
        opt_seq(r) == match o {
            Some(s) => Some(s@),
            None => None::<Seq<char>>,
        },
{
    match o {
        Some(s) => Some(s.to_owned()),
        None => None,
    }
}

impl YouTubeClient {
    /// Builds the `context` object for this client. The dataSyncId is sent as
    /// `onBehalfOfUser` only when the client supports login.
    pub fn to_context(
        &self,
        locale: &Locale,
        visitor_data: Option<&str>,
        data_sync_id: Option<&str>,
    ) -> (c: Context)
        ensures
            c.client.client_name == self.client_name,
            c.client.client_version == self.client_version,
            c.client.os_name == self.os_name,
            c.client.os_version == self.os_version,
            c.client.device_make == self.device_make,
            c.client.device_model == self.device_model,
            c.client.android_sdk_version == self.android_sdk_version,
            c.client.gl == locale.gl,
            c.client.hl == locale.hl,
            opt_seq(c.client.visitor_data) == match visitor_data {
                Some(s) => Some(s@),
                None => None::<Seq<char>>,
            },
            self.is_embedded <==> c.third_party is Some,
            c.third_party matches Some(t) ==> t.embed_url@.len() == 0,
            c.request.internal_experiment_flags@.len() == 0,
            c.request.use_ssl,
            !c.user.locked_safety_mode,
            opt_seq(c.user.on_behalf_of_user) == (if self.login_supported {
                match data_sync_id {
                    Some(s) => Some(s@),
                    None => None::<Seq<char>>,
                }
            } else {
                None::<Seq<char>>
            }),
    {
        let third_party = if self.is_embedded {
            Some(ThirdParty { embed_url: String::new() })
        } else {
            None
        };
        let on_behalf = if self.login_supported {
            copy_opt_str(data_sync_id)
        } else {
            None
        };
        Context {
            client: Client {
                client_name: self.client_name.clone(),
                client_version: self.client_version.clone(),
                os_name: crate::text::copy_opt(&self.os_name),
                os_version: crate::text::copy_opt(&self.os_version),
                device_make: crate::text::copy_opt(&self.device_make),
                device_model: crate::text::copy_opt(&self.device_model),
                android_sdk_version: crate::text::copy_opt(&self.android_sdk_version),
                gl: locale.gl.clone(),
                hl: locale.hl.clone(),
                visitor_data: copy_opt_str(visitor_data),
            },
            third_party,
            request: Request::default(),
            user: User { locked_safety_mode: false, on_behalf_of_user: on_behalf },
        }
    }
}

} // verus!
