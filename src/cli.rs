use crate::engine::GameMode;
use vstd::prelude::*;
use vstd::string::*;

verus! {

/// The command line of the program.
pub struct Cli {
    pub command: Option<Commands>,
}

/// What the program is asked to do.
pub enum Commands {
    /// Serve games on `port`, in the mode named `mode` ("zero" or "finite").
    Serve { mode: String, port: usize },
    /// Connect a terminal to the game server on `port`.
    Client { port: usize },
}

/// `a` and `b` hold the same characters.
fn same_text(a: &str, b: &str) -> (r: bool)
    ensures
        r == (a@ == b@),
{
    let n = a.unicode_len();
    if n != b.unicode_len() {
        return false;
    }
    let mut i: usize = 0;
    while i < n
        invariant
            i <= n,
            n == a@.len(),
            n == b@.len(),
            forall|k: int| 0 <= k < i ==> a@[k] == b@[k],
        decreases n - i,
    {
        if a.get_char(i) != b.get_char(i) {
            return false;
        }
        i = i + 1;
    }
    assert(a@ =~= b@);
    true
}

/// The game mode a name on the command line stands for: "zero" or "finite".
pub fn mode_named(name: &str) -> (r: Option<GameMode>)
    ensures
        name@ == "zero"@ ==> r == Some(GameMode::Zero),
        name@ == "finite"@ ==> r == Some(GameMode::Finite),
        name@ != "zero"@ && name@ != "finite"@ ==> r is None,
{
    proof {
        reveal_strlit("zero");
        reveal_strlit("finite");
        assert("zero"@.len() != "finite"@.len());
    }
    if same_text(name, "zero") {
        Some(GameMode::Zero)
    } else if same_text(name, "finite") {
        Some(GameMode::Finite)
    } else {
        None
    }
}

} // verus!
