//! The addresses that the pages of a leaderboard are asked from.

use vstd::prelude::*;
use vstd::string::StringExecFns;
use crate::decimal::{decimal, push_decimal};
use crate::paging::{Fetch, PAGE_SIZE};
use crate::target::Mode;

verus! {

/// Where the service lives.
pub const BASE_URL: &'static str = "https://api.streamelements.com/kappa/v2";

/// The address of a channel's leaderboard, which is also the address of its
/// first page: the base, the channel, the mode's word, and the page size as
/// the limit.
pub open spec fn leaderboard_url_text(channel: Seq<char>, mode: Mode) -> Seq<char> {
    BASE_URL@ + "/points/"@ + channel + "/"@ + mode.word() + "?limit="@ + decimal(
        PAGE_SIZE as nat,
    )
}

/// The address of one request: the leaderboard's own where the request
/// carries no offset, else that address with the offset as a further query
/// parameter.
pub open spec fn request_url_text(url: Seq<char>, fetch: Fetch) -> Seq<char> {
    match fetch.offset {
        None => url,
        Some(offset) => url + "&offset="@ + decimal(offset as nat),
    }
}

pub fn leaderboard_url(channel: &str, mode: Mode) -> (url: String)
    ensures
        url@ == leaderboard_url_text(channel@, mode),
{
    let mut url = String::from_str(BASE_URL);
    url.append("/points/");
    url.append(channel);
    url.append("/");
    url.append(mode.suffix());
    url.append("?limit=");
    push_decimal(&mut url, PAGE_SIZE as u128);
    url
}

pub fn request_url(url: &str, fetch: Fetch) -> (address: String)
    ensures
        address@ == request_url_text(url@, fetch),
{
    let mut address = String::from_str(url);
    match fetch.offset {
        None => {},
        Some(offset) => {
            address.append("&offset=");
            push_decimal(&mut address, offset);
        },
    }
    address
}

} // verus!
