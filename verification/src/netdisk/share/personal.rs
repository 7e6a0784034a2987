//! Personal shares.
use vstd::prelude::*;

use crate::netdisk::share::links::parse_personal_link;
use crate::netdisk::share::ShareProvider;
use crate::text::concat2;
use crate::transfer::{ShareKind, ShareLink};

verus! {

/// The system of personal shares.
#[derive(Debug, Clone, Copy, PartialEq, Eq, Structural)]
pub struct PersonalShare;

/// The page of a share.
pub fn share_referer(short_key: &str) -> (r: String)
    ensures
        r@ == "https://pan.baidu.com/s/"@ + short_key@,
{
    concat2("https://pan.baidu.com/s/", short_key)
}

impl ShareProvider for PersonalShare {
    open spec fn system(&self) -> ShareKind {
        ShareKind::Personal
    }

    fn kind(&self) -> (r: ShareKind) {
        ShareKind::Personal
    }

    fn parse_link(&self, url: &str) -> (r: Result<Option<ShareLink>, String>) {
        Ok(parse_personal_link(url))
    }
}

} // verus!
