//! The console commands.
use vstd::prelude::*;
use crate::text::{ws_tokens, split_whitespace, string_views, chars_of, string_from_chars};

verus! {

/// A console command, with its words still as text where they are numbers
/// that the game reads as such.
pub enum Command {
    /// `/fly`: start flying.
    Fly,
    /// `/fall`: back to walking, with gravity.
    Fall,
    /// `/noclip`: switch noclip.
    Noclip,
    /// `/tp x y z`: teleport to the coordinates.
    Teleport(String, String, String),
    /// `/tp` with fewer than three coordinates.
    TeleportMissingCoordinates,
    /// `/spawn`: back to the spawn point.
    Spawn,
    /// `/reset`: new ground, player back at spawn.
    Reset,
    /// `/save [name]`: write the world to this file.
    Save(String),
    /// `/load [name]`: read the world from this file.
    Load(String),
    /// `/list`: list the saved worlds.
    List,
    /// `/sensivity` or `/sensitivity`, with its value if one was given.
    Sensitivity(Option<String>),
    /// `/speed`, with its value if one was given.
    Speed(Option<String>),
    /// `/fov`, with its value if one was given.
    Fov(Option<String>),
    /// `/stop`: quit.
    Stop,
    /// `/help`: show the commands.
    Help,
    /// Any other first word.
    Unknown(String),
}

/// The text of an optional string.
pub open spec fn option_text(v: Option<String>) -> Option<Seq<char>> {
    match v {
        Some(s) => Some(s@),
        None => None,
    }
}

/// The word after the command, if there is one.
pub open spec fn argument(words: Seq<Seq<char>>) -> Option<Seq<char>> {
    if words.len() > 1 {
        Some(words[1])
    } else {
        None
    }
}

/// The file, in the worlds folder, that `/save` and `/load` use: the name
/// given, else `world.txt`.
pub open spec fn world_file_path(words: Seq<Seq<char>>) -> Seq<char> {
    "grids/"@ + if words.len() > 1 {
        words[1]
    } else {
        "world.txt"@
    }
}

/// `c` is the command that the non-empty word list `words` gives.
pub open spec fn command_of(words: Seq<Seq<char>>, c: Command) -> bool {
    let head = words[0];
    if head == "/fly"@ {
        c is Fly
    } else if head == "/fall"@ {
        c is Fall
    } else if head == "/noclip"@ {
        c is Noclip
    } else if head == "/tp"@ {
        if words.len() >= 4 {
            c matches Command::Teleport(x, y, z) && x@ == words[1] && y@ == words[2] && z@
                == words[3]
        } else {
            c is TeleportMissingCoordinates
        }
    } else if head == "/spawn"@ {
        c is Spawn
    } else if head == "/reset"@ {
        c is Reset
    } else if head == "/save"@ {
        c matches Command::Save(path) && path@ == world_file_path(words)
    } else if head == "/load"@ {
        c matches Command::Load(path) && path@ == world_file_path(words)
    } else if head == "/list"@ {
        c is List
    } else if head == "/sensivity"@ || head == "/sensitivity"@ {
        c matches Command::Sensitivity(v) && option_text(v) == argument(words)
    } else if head == "/speed"@ {
        c matches Command::Speed(v) && option_text(v) == argument(words)
    } else if head == "/fov"@ {
        c matches Command::Fov(v) && option_text(v) == argument(words)
    } else if head == "/stop"@ {
        c is Stop
    } else if head == "/help"@ {
        c is Help
    } else {
        c matches Command::Unknown(w) && w@ == head
    }
}

/// Whether the text of `a` is `b`.
pub fn same_text(a: &String, b: &str) -> (r: bool)
    ensures
        r == (a@ == b@),
{
    let x = chars_of(a.as_str());
    let y = chars_of(b);
    if x.len() != y.len() {
        return false;
    }
    let mut i: usize = 0;
    while i < x.len()
        invariant
            x@.len() == y@.len(),
            0 <= i <= x@.len(),
            x@ == a@,
            y@ == b@,
            forall|j: int| 0 <= j < i ==> x@[j] == y@[j],
        decreases x@.len() - i,
    {
        if x[i] != y[i] {
            return false;
        }
        i = i + 1;
    }
    assert(x@ =~= y@);
    true
}

/// `prefix` followed by `rest`.
fn joined(prefix: &str, rest: &str) -> (s: String)
    ensures
        s@ == prefix@ + rest@,
{
    let mut out = chars_of(prefix);
    let tail = chars_of(rest);
    let ghost start = out@;
    let mut i: usize = 0;
    while i < tail.len()
        invariant
            0 <= i <= tail@.len(),
            tail@ == rest@,
            start == prefix@,
            out@ == start + tail@.take(i as int),
        decreases tail@.len() - i,
    {
        out.push(tail[i]);
        assert(tail@.take(i + 1) =~= tail@.take(i as int).push(tail@[i as int]));
        i = i + 1;
    }
    assert(tail@.take(tail@.len() as int) =~= tail@);
    string_from_chars(&out)
}

/// The world file that `/save` and `/load` name.
fn world_file_of(words: &Vec<String>) -> (path: String)
    requires
        words@.len() > 0,
    ensures
        path@ == world_file_path(string_views(words@)),
{
    if words.len() > 1 {
        assert(string_views(words@)[1] == words@[1]@);
        joined("grids/", words[1].as_str())
    } else {
        joined("grids/", "world.txt")
    }
}

/// The word after the command, if any.
fn argument_of(words: &Vec<String>) -> (arg: Option<String>)
    requires
        words@.len() > 0,
    ensures
        option_text(arg) == argument(string_views(words@)),
{
    if words.len() > 1 {
        assert(string_views(words@)[1] == words@[1]@);
        Some(words[1].clone())
    } else {
        None
    }
}

/// The command that a console line gives: `None` for a line of whitespace
/// only, else the command named by its first word.
pub fn parse_command(line: &str) -> (cmd: Option<Command>)
    ensures
        cmd is None <==> ws_tokens(line@).len() == 0,
        cmd matches Some(c) ==> command_of(ws_tokens(line@), c),
{
    let words = split_whitespace(line);
    if words.len() == 0 {
        return None;
    }
    let ghost w = string_views(words@);
    assert(w[0] == words@[0]@);
    let head = &words[0];
    let cmd = if same_text(head, "/fly") {
        Command::Fly
    } else if same_text(head, "/fall") {
        Command::Fall
    } else if same_text(head, "/noclip") {
        Command::Noclip
    } else if same_text(head, "/tp") {
        if words.len() >= 4 {
            assert(w[1] == words@[1]@ && w[2] == words@[2]@ && w[3] == words@[3]@);
            Command::Teleport(words[1].clone(), words[2].clone(), words[3].clone())
        } else {
            Command::TeleportMissingCoordinates
        }
    } else if same_text(head, "/spawn") {
        Command::Spawn
    } else if same_text(head, "/reset") {
        Command::Reset
    } else if same_text(head, "/save") {
        Command::Save(world_file_of(&words))
    } else if same_text(head, "/load") {
        Command::Load(world_file_of(&words))
    } else if same_text(head, "/list") {
        Command::List
    } else if same_text(head, "/sensivity") || same_text(head, "/sensitivity") {
        Command::Sensitivity(argument_of(&words))
    } else if same_text(head, "/speed") {
        Command::Speed(argument_of(&words))
    } else if same_text(head, "/fov") {
        Command::Fov(argument_of(&words))
    } else if same_text(head, "/stop") {
        Command::Stop
    } else if same_text(head, "/help") {
        Command::Help
    } else {
        Command::Unknown(head.clone())
    };
    Some(cmd)
}

/// What each command word means: a line whose first word is a command word
/// gives that command, with the words that follow it as its arguments.
/// `/save` and `/load` name the file in the worlds folder after their second
/// word, or `world.txt` without one; `/tp` takes the next three words;
/// `/sensivity`, `/sensitivity`, `/speed` and `/fov` take the next word, if any.
pub proof fn lemma_command_words(words: Seq<Seq<char>>, c: Command)
    requires
        words.len() > 0,
        command_of(words, c),
    ensures
        words[0] == "/fly"@ ==> c is Fly,
        words[0] == "/fall"@ ==> c is Fall,
        words[0] == "/noclip"@ ==> c is Noclip,
        words[0] == "/tp"@ && words.len() >= 4 ==> (c matches Command::Teleport(x, y, z) && x@
            == words[1] && y@ == words[2] && z@ == words[3]),
        words[0] == "/tp"@ && words.len() < 4 ==> c is TeleportMissingCoordinates,
        words[0] == "/spawn"@ ==> c is Spawn,
        words[0] == "/reset"@ ==> c is Reset,
        words[0] == "/save"@ && words.len() > 1 ==> (c matches Command::Save(p) && p@ == "grids/"@
            + words[1]),
        words[0] == "/save"@ && words.len() == 1 ==> (c matches Command::Save(p) && p@
            == "grids/world.txt"@),
        words[0] == "/load"@ && words.len() > 1 ==> (c matches Command::Load(p) && p@ == "grids/"@
            + words[1]),
        words[0] == "/load"@ && words.len() == 1 ==> (c matches Command::Load(p) && p@
            == "grids/world.txt"@),
        words[0] == "/list"@ ==> c is List,
        (words[0] == "/sensivity"@ || words[0] == "/sensitivity"@) && words.len() > 1 ==> (c matches Command::Sensitivity(Some(v)) && v@ == words[1]),
        (words[0] == "/sensivity"@ || words[0] == "/sensitivity"@) && words.len() == 1 ==> (c matches Command::Sensitivity(None)),
        words[0] == "/speed"@ && words.len() > 1 ==> (c matches Command::Speed(Some(v)) && v@
            == words[1]),
        words[0] == "/speed"@ && words.len() == 1 ==> (c matches Command::Speed(None)),
        words[0] == "/fov"@ && words.len() > 1 ==> (c matches Command::Fov(Some(v)) && v@
            == words[1]),
        words[0] == "/fov"@ && words.len() == 1 ==> (c matches Command::Fov(None)),
        words[0] == "/stop"@ ==> c is Stop,
        words[0] == "/help"@ ==> c is Help,
        words[0] != "/fly"@ && words[0] != "/fall"@ && words[0] != "/noclip"@ && words[0]
            != "/tp"@ && words[0] != "/spawn"@ && words[0] != "/reset"@ && words[0] != "/save"@
            && words[0] != "/load"@ && words[0] != "/list"@ && words[0] != "/sensivity"@
            && words[0] != "/sensitivity"@ && words[0] != "/speed"@ && words[0] != "/fov"@
            && words[0] != "/stop"@ && words[0] != "/help"@ ==> (c matches Command::Unknown(u)
            && u@ == words[0]),
{
    reveal_strlit("/fly");
    reveal_strlit("/fall");
    reveal_strlit("/noclip");
    reveal_strlit("/tp");
    reveal_strlit("/spawn");
    reveal_strlit("/reset");
    reveal_strlit("/save");
    reveal_strlit("/load");
    reveal_strlit("/list");
    reveal_strlit("/sensivity");
    reveal_strlit("/sensitivity");
    reveal_strlit("/speed");
    reveal_strlit("/fov");
    reveal_strlit("/stop");
    reveal_strlit("/help");
    reveal_strlit("grids/");
    reveal_strlit("world.txt");
    reveal_strlit("grids/world.txt");
    let w = words[0];
    assert("grids/"@ + "world.txt"@ =~= "grids/world.txt"@);
    if w.len() > 1 {
        // Words of one length are told apart by their second or third letter.
        assert(w[1] == 'f' ==> w != "/save"@ && w != "/load"@ && w != "/list"@ && w != "/stop"@
            && w != "/help"@ && w != "/speed"@ && w != "/spawn"@ && w != "/reset"@);
        assert(w[1] == 's' ==> w != "/fly"@ && w != "/fall"@ && w != "/fov"@ && w != "/load"@
            && w != "/list"@ && w != "/help"@ && w != "/reset"@);
        assert(w[1] == 'l' ==> w != "/fall"@ && w != "/save"@ && w != "/stop"@ && w != "/help"@);
        assert(w[1] == 'r' ==> w != "/spawn"@ && w != "/speed"@);
        assert(w[1] == 'h' ==> w != "/fall"@ && w != "/save"@ && w != "/load"@ && w != "/list"@
            && w != "/stop"@);
    }
    if w.len() > 2 {
        assert(w[2] == 'a' ==> w != "/stop"@ && w != "/speed"@ && w != "/list"@ && w != "/load"@);
        assert(w[2] == 'o' ==> w != "/save"@ && w != "/spawn"@ && w != "/speed"@ && w != "/list"@
            && w != "/fly"@);
        assert(w[2] == 'i' ==> w != "/load"@);
        assert(w[2] == 't' ==> w != "/save"@ && w != "/spawn"@ && w != "/speed"@);
        assert(w[2] == 'p' ==> w != "/stop"@ && w != "/save"@);
        assert(w[2] == 'l' ==> w != "/fov"@ && w != "/fall"@);
    }
    if w.len() > 3 {
        assert(w[3] == 'e' ==> w != "/spawn"@);
        assert(w[3] == 'a' ==> w != "/speed"@);
    }
}

} // verus!
