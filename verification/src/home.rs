//! The home page: a static shell, produced from no input.

use vstd::prelude::*;

verus! {

/// The text of the home page shell.
pub open spec fn home_page_text() -> Seq<char> {
    "<!DOCTYPE html><html><head><title>Home</title><script type='module' src='https://cdn.jsdelivr.net/gh/starfederation/datastar/bundles/datastar.js'></script></head><body><h1>Hello</h1><div id='message'>Waiting...</div><button data-on-click=\"@get('/hello-world')\">Start</button><a href='/calculator'>Calculator</a></body></html>"@
}

/// Renders the home page shell.
pub fn index() -> (r: String)
    ensures
        r@ == home_page_text(),
{
    String::from_str(
        "<!DOCTYPE html><html><head><title>Home</title><script type='module' src='https://cdn.jsdelivr.net/gh/starfederation/datastar/bundles/datastar.js'></script></head><body><h1>Hello</h1><div id='message'>Waiting...</div><button data-on-click=\"@get('/hello-world')\">Start</button><a href='/calculator'>Calculator</a></body></html>",
    )
}

} // verus!
