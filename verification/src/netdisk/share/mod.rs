//! Shares, of which there are two systems.
//!
//! What they have in common stands in `common`, how their links look in `links`, and how a
//! copy out of the enterprise system goes in `copying`. Each of the systems
//! is a `ShareProvider`.
use vstd::prelude::*;

use crate::netdisk::share::apaas::ApaasShare;
use crate::netdisk::share::personal::PersonalShare;
use crate::transfer::{ShareKind, ShareLink};

pub mod apaas;
pub mod common;
pub mod copying;
pub mod links;
pub mod personal;

verus! {

/// A request to the service about a share.
#[derive(Debug)]
pub struct ShareHttpRequest<'a> {
    /// The address, with its query.
    pub url: String,
    /// The page that the request seems to come from; the service looks at it.
    pub referer: String,
    /// The fields of a form to post; `None` for a request without one.
    pub form: Option<Vec<(&'a str, String)>>,
    /// The key of the share to send as a cookie.
    pub cookie_randsk: Option<&'a str>,
    /// What to say when the request fails.
    pub error_context: &'static str,
}

/// One of the share systems.
pub trait ShareProvider {
    /// Which of the systems it is.
    spec fn system(&self) -> ShareKind;

    /// Which of the systems it is.
    fn kind(&self) -> (r: ShareKind)
        ensures
            r == self.system(),
    ;

    /// The share of the system that a text links to; `None` where it links to none.
    fn parse_link(&self, url: &str) -> (r: Result<Option<ShareLink>, String>)
        ensures
            r is Ok,
            links::same_link(r->Ok_0, links::link_of_kind(self.system(), url@)),
    ;
}

/// Either of the share systems.
#[derive(Debug, Clone, Copy, PartialEq, Eq, Structural)]
pub enum Provider {
    Personal(PersonalShare),
    Apaas(ApaasShare),
}

impl ShareProvider for Provider {
    open spec fn system(&self) -> ShareKind {
        match self {
            Provider::Personal(_) => ShareKind::Personal,
            Provider::Apaas(_) => ShareKind::Apaas,
        }
    }

    fn kind(&self) -> (r: ShareKind) {
        match self {
            Provider::Personal(p) => p.kind(),
            Provider::Apaas(p) => p.kind(),
        }
    }

    fn parse_link(&self, url: &str) -> (r: Result<Option<ShareLink>, String>) {
        match self {
            Provider::Personal(p) => p.parse_link(url),
            Provider::Apaas(p) => p.parse_link(url),
        }
    }
}

/// The share system of a kind.
pub fn provider_for(kind: ShareKind) -> (r: Provider)
    ensures
        r.system() == kind,
{
    match kind {
        ShareKind::Personal => Provider::Personal(PersonalShare),
        ShareKind::Apaas => Provider::Apaas(ApaasShare),
    }
}

} // verus!
