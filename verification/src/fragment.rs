//! Markup fragments: one discrete unit of rendered output, tagged with
//! the mount point the client merges it into.

use vstd::prelude::*;

verus! {

/// One self-contained unit of rendered markup, plus the identifier of
/// the element it replaces or merges into. Never mutated once built.
pub struct Fragment {
    pub mount_id: String,
    pub markup: String,
}

/// The markup of a plain element wrapping `content`, mounted at `mount`.
pub open spec fn div_markup(mount: Seq<char>, content: Seq<char>) -> Seq<char> {
    "<div id='"@ + mount + "'>"@ + content + "</div>"@
}

/// Wraps a literal string verbatim in an element carrying the mount id.
pub fn render_literal(mount_id: &str, content: &str) -> (f: Fragment)
    ensures
        f.mount_id@ == mount_id@,
        f.markup@ == div_markup(mount_id@, content@),
{
    let mut markup = String::from_str("<div id='");
    markup.append(mount_id);
    markup.append("'>");
    markup.append(content);
    markup.append("</div>");
    proof {
        assert(markup@ =~= div_markup(mount_id@, content@));
    }
    Fragment { mount_id: mount_id.to_owned(), markup }
}

} // verus!
