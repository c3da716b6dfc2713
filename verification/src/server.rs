//! The dashboard of the solo miner.

use crate::text;
use vstd::prelude::*;

verus! {

/// The port on which the dashboard answers.
pub const PORT: u16 = 2700;

/// What the dashboard reads: the path of the active chain file.
pub struct ServerState {
    pub chain_file: String,
}

impl ServerState {
    /// The state of a dashboard that shows a given chain file.
    pub fn new(chain_file: &str) -> (state: ServerState)
        ensures
            state.chain_file@ == chain_file@,
    {
        ServerState { chain_file: chain_file.to_owned() }
    }

    /// Shows another chain file.
    pub fn update_chain_file(&mut self, path: &str)
        ensures
            final(self).chain_file@ == path@,
    {
        self.chain_file = path.to_owned();
    }
}

/// The dashboard page, told that it is served by a miner.
pub open spec fn served_page(html: Seq<char>) -> Seq<char> {
    text::replaced_text(html, "// __SERVER_MODE__"@, "window.__SERVER_MODE__ = true;"@)
}

/// The dashboard page, told that it is served by a miner.
pub fn served_page_text(html: &str) -> (page: String)
    ensures
        page@ == served_page(html@),
{
    proof {
        reveal_strlit("// __SERVER_MODE__");
    }
    text::replace_text(html, "// __SERVER_MODE__", "window.__SERVER_MODE__ = true;")
}

/// A page is told by what takes the place of the mark in it: everything else stays, and a page
/// without the mark is served as it is.
pub proof fn law_page_is_told_at_the_mark(a: Seq<char>, b: Seq<char>)
    requires
        forall|j: int|
            0 <= j < a.len() ==> !#[trigger] text::occurs_at(
                a + "// __SERVER_MODE__"@ + b,
                "// __SERVER_MODE__"@,
                j,
            ),
        !text::occurs(b, "// __SERVER_MODE__"@),
    ensures
        served_page(a + "// __SERVER_MODE__"@ + b) == a + "window.__SERVER_MODE__ = true;"@ + b,
        served_page(b) == b,
{
    reveal_strlit("// __SERVER_MODE__");
    text::law_each_occurrence_is_replaced(
        a,
        "// __SERVER_MODE__"@,
        b,
        "window.__SERVER_MODE__ = true;"@,
    );
}

} // verus!
