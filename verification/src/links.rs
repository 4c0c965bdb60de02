//! Opening pages in the wallet's own browser.

use crate::places::Os;
use crate::text::text_of;
use vstd::prelude::*;

verus! {

/// What is wrong with a text as a URL; none if it is one.
pub uninterp spec fn url_error(s: Seq<char>) -> Option<Seq<char>>;

/// `url::Url::parse`: how its error is worded, if there is one. Only named.
#[verifier::external_body]
fn check_url(s: &str) -> (r: Option<String>)
    ensures
        text_of(r) == url_error(s@),
{
    url::Url::parse(s).err().map(|e| e.to_string())
}

/// How a page is opened.
#[derive(Clone, Copy, PartialEq, Eq, Structural)]
pub enum Browse {
    /// By a function that the app registered.
    Registered,
    /// By the Android app.
    Android,
    /// In the window that is open already.
    Navigate,
    /// In a new window.
    Open,
    /// Not at all.
    Nothing,
}

/// Whether pages are shown in windows.
pub open spec fn has_windows(os: Os) -> bool {
    os == Os::MacOs || os == Os::Windows || os == Os::Linux
}

/// How a page is opened. Only a window has to be told a URL that is one.
pub open spec fn browsing(registered: bool, os: Os, error: Option<Seq<char>>, open: bool) -> Result<
    Browse,
    Seq<char>,
> {
    if registered {
        Ok(Browse::Registered)
    } else if os == Os::Android {
        Ok(Browse::Android)
    } else if has_windows(os) {
        match error {
            Some(e) => Err(e),
            None => if open {
                Ok(Browse::Navigate)
            } else {
                Ok(Browse::Open)
            },
        }
    } else {
        Ok(Browse::Nothing)
    }
}

/// How a page is opened, given what is wrong with its URL.
pub fn browse_with(registered: bool, os: Os, error: Option<String>, open: bool) -> (r: Result<
    Browse,
    String,
>)
    ensures
        crate::text::outcome(r) == browsing(registered, os, text_of(error), open),
{
    if registered {
        return Ok(Browse::Registered);
    }
    match os {
        Os::Android => Ok(Browse::Android),
        Os::Ios => Ok(Browse::Nothing),
        _ => match error {
            Some(e) => Err(e),
            None => if open {
                Ok(Browse::Navigate)
            } else {
                Ok(Browse::Open)
            },
        },
    }
}

/// How a page is opened. `registered` says whether the app registered a
/// function for it, `open` whether there is a window already.
pub fn browse(registered: bool, os: Os, url: &str, open: bool) -> (r: Result<Browse, String>)
    ensures
        crate::text::outcome(r) == browsing(registered, os, url_error(url@), open),
{
    browse_with(registered, os, check_url(url), open)
}

/// Who opens a page: a function of the app if there is one, else the Android
/// app, else a window; a URL that cannot be read is an error only there, and on
/// iOS nothing is opened.
pub proof fn law_who_browses(os: Os, error: Option<Seq<char>>, open: bool, e: Seq<char>)
    ensures
        browsing(true, os, error, open) == Ok::<Browse, Seq<char>>(Browse::Registered),
        browsing(false, Os::Android, error, open) == Ok::<Browse, Seq<char>>(Browse::Android),
        browsing(false, Os::Ios, error, open) == Ok::<Browse, Seq<char>>(Browse::Nothing),
        os != Os::Android && os != Os::Ios ==> {
            &&& browsing(false, os, Some(e), open) == Err::<Browse, Seq<char>>(e)
            &&& browsing(false, os, None, true) == Ok::<Browse, Seq<char>>(Browse::Navigate)
            &&& browsing(false, os, None, false) == Ok::<Browse, Seq<char>>(Browse::Open)
        },
{
}

} // verus!
