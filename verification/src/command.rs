//! The player's command language: a line of input becomes a `Command`.

use vstd::prelude::*;
use vstd::string::*;
use crate::styled::{chars_of, same_text, string_of, push_char};

verus! {

/// A command typed by a player.
#[derive(Debug, PartialEq, Clone)]
pub enum Command {
    Attack { target: String },
    Kill { target: String },
    Cast { skill: String, target: Option<String> },
    Perform { skill: String, target: Option<String> },
    Look,
    Score,
    Talk { target: String },
    Quest,
    Accept { quest_id: String },
    Say { message: String },
    Go { direction: String },
    Get { item: String },
    Drop { item: String },
    Inventory,
    Alias { name: Option<String>, command: Option<String> },
    Unalias { name: String },
    Rest,
    Work,
    Help,
    Who,
    Invalid(String),
    Unknown(String),
}

/// A command with its texts seen as character sequences.
pub enum CommandView {
    Attack { target: Seq<char> },
    Kill { target: Seq<char> },
    Cast { skill: Seq<char>, target: Option<Seq<char>> },
    Perform { skill: Seq<char>, target: Option<Seq<char>> },
    Look,
    Score,
    Talk { target: Seq<char> },
    Quest,
    Accept { quest_id: Seq<char> },
    Say { message: Seq<char> },
    Go { direction: Seq<char> },
    Get { item: Seq<char> },
    Drop { item: Seq<char> },
    Inventory,
    Alias { name: Option<Seq<char>>, command: Option<Seq<char>> },
    Unalias { name: Seq<char> },
    Rest,
    Work,
    Help,
    Who,
    Invalid(Seq<char>),
    Unknown(Seq<char>),
}

pub open spec fn opt_view(o: Option<String>) -> Option<Seq<char>> {
    match o {
        Some(s) => Some(s@),
        None => None,
    }
}

impl View for Command {
    type V = CommandView;

    open spec fn view(&self) -> CommandView {
        match self {
            Command::Attack { target } => CommandView::Attack { target: target@ },
            Command::Kill { target } => CommandView::Kill { target: target@ },
            Command::Cast { skill, target } => CommandView::Cast {
                skill: skill@,
                target: opt_view(*target),
            },
            Command::Perform { skill, target } => CommandView::Perform {
                skill: skill@,
                target: opt_view(*target),
            },
            Command::Look => CommandView::Look,
            Command::Score => CommandView::Score,
            Command::Talk { target } => CommandView::Talk { target: target@ },
            Command::Quest => CommandView::Quest,
            Command::Accept { quest_id } => CommandView::Accept { quest_id: quest_id@ },
            Command::Say { message } => CommandView::Say { message: message@ },
            Command::Go { direction } => CommandView::Go { direction: direction@ },
            Command::Get { item } => CommandView::Get { item: item@ },
            Command::Drop { item } => CommandView::Drop { item: item@ },
            Command::Inventory => CommandView::Inventory,
            Command::Alias { name, command } => CommandView::Alias {
                name: opt_view(*name),
                command: opt_view(*command),
            },
            Command::Unalias { name } => CommandView::Unalias { name: name@ },
            Command::Rest => CommandView::Rest,
            Command::Work => CommandView::Work,
            Command::Help => CommandView::Help,
            Command::Who => CommandView::Who,
            Command::Invalid(m) => CommandView::Invalid(m@),
            Command::Unknown(m) => CommandView::Unknown(m@),
        }
    }
}

/// Unicode `White_Space`, the set that `char::is_whitespace` tests.
pub open spec fn is_ws(c: char) -> bool {
    let u = c as u32;
    ||| 0x09 <= u <= 0x0d
    ||| u == 0x20
    ||| u == 0x85
    ||| u == 0xa0
    ||| u == 0x1680
    ||| 0x2000 <= u <= 0x200a
    ||| u == 0x2028
    ||| u == 0x2029
    ||| u == 0x202f
    ||| u == 0x205f
    ||| u == 0x3000
}

/// `char::is_whitespace`.
pub fn is_whitespace(c: char) -> (r: bool)
    ensures
        r == is_ws(c),
{
    let u = c as u32;
    (0x09 <= u && u <= 0x0d) || u == 0x20 || u == 0x85 || u == 0xa0 || u == 0x1680 || (0x2000
        <= u && u <= 0x200a) || u == 0x2028 || u == 0x2029 || u == 0x202f || u == 0x205f || u
        == 0x3000
}

/// The words of `s`, given that `cur` is the part of a word already read.
pub open spec fn words_from(s: Seq<char>, cur: Seq<char>) -> Seq<Seq<char>>
    decreases s.len(),
{
    if s.len() == 0 {
        if cur.len() == 0 { seq![] } else { seq![cur] }
    } else if is_ws(s[0]) {
        if cur.len() == 0 {
            words_from(s.drop_first(), seq![])
        } else {
            seq![cur] + words_from(s.drop_first(), seq![])
        }
    } else {
        words_from(s.drop_first(), cur.push(s[0]))
    }
}

/// The whitespace-separated words of a line (`split_whitespace`).
pub open spec fn split_ws(s: Seq<char>) -> Seq<Seq<char>> {
    words_from(s, seq![])
}

/// Words joined by single spaces (`join(" ")`).
pub open spec fn join_words(ws: Seq<Seq<char>>) -> Seq<char>
    decreases ws.len(),
{
    if ws.len() == 0 {
        seq![]
    } else if ws.len() == 1 {
        ws[0]
    } else {
        join_words(ws.drop_last()) + seq![' '] + ws.last()
    }
}

/// Whether every character of a text is ASCII.
pub open spec fn is_ascii_text(s: Seq<char>) -> bool {
    forall|i: int| 0 <= i < s.len() ==> (#[trigger] s[i]) as u32 <= 0x7f
}

/// An ASCII capital lowered; any other character as it is.
pub open spec fn lower_char(c: char) -> char {
    if 'A' <= c <= 'Z' { ((c as u32) + 32) as char } else { c }
}

/// An ASCII small letter raised; any other character as it is.
pub open spec fn upper_char(c: char) -> char {
    if 'a' <= c <= 'z' { ((c as u32) - 32) as char } else { c }
}

/// A text with its ASCII capitals lowered (`to_ascii_lowercase`).
pub open spec fn ascii_lowercase(s: Seq<char>) -> Seq<char> {
    s.map_values(|c: char| lower_char(c))
}

/// A text with its ASCII small letters raised (`to_ascii_uppercase`).
pub open spec fn ascii_uppercase(s: Seq<char>) -> Seq<char> {
    s.map_values(|c: char| upper_char(c))
}

/// The lowercase form of a text, as `str::to_lowercase` computes it.
pub uninterp spec fn lowercase(s: Seq<char>) -> Seq<char>;

/// `str::to_lowercase`: the Unicode lowercase mapping of each character.
/// The result is named by `lowercase`; of an ASCII text it is stated in
/// full: Unicode lowers `A`..`Z` to `a`..`z` and maps every other ASCII
/// character to itself. Of other texts nothing more is stated.
#[verifier::external_body]
pub(crate) fn to_lowercase(s: &str) -> (r: String)
    ensures
        r@ == lowercase(s@),
        is_ascii_text(s@) ==> r@ == ascii_lowercase(s@),
{
    s.to_lowercase()
}

/// The full name of a direction, for the one-letter abbreviations.
pub open spec fn direction_name(d: Seq<char>) -> Seq<char> {
    if d == "n"@ {
        "north"@
    } else if d == "s"@ {
        "south"@
    } else if d == "e"@ {
        "east"@
    } else if d == "w"@ {
        "west"@
    } else if d == "u"@ {
        "up"@
    } else if d == "d"@ {
        "down"@
    } else {
        d
    }
}

/// The word at position `i`, if there is one.
pub open spec fn word_at(ws: Seq<Seq<char>>, i: int) -> Option<Seq<char>> {
    if 0 <= i < ws.len() { Some(ws[i]) } else { None }
}

/// The command that a line of words means, given the lowercase form `key`
/// of its first word and the lowercase form `dir` of its second word.
pub open spec fn spec_command(
    ws: Seq<Seq<char>>,
    key: Seq<char>,
    dir: Seq<char>,
) -> CommandView {
    let first = ws[0];
    let rest = join_words(ws.skip(1));
    if key == "attack"@ {
        if ws.len() > 1 { CommandView::Attack { target: ws[1] } }
        else { CommandView::Invalid("Attack who?"@) }
    } else if key == "perform"@ {
        if ws.len() > 1 { CommandView::Perform { skill: ws[1], target: word_at(ws, 2) } }
        else { CommandView::Invalid("Perform what?"@) }
    } else if key == "look"@ {
        CommandView::Look
    } else if key == "score"@ || key == "status"@ || key == "attr"@ {
        CommandView::Score
    } else if key == "talk"@ || key == "chat"@ {
        if ws.len() > 1 { CommandView::Talk { target: ws[1] } }
        else { CommandView::Invalid("Talk to who?"@) }
    } else if key == "quest"@ || key == "qs"@ {
        CommandView::Quest
    } else if key == "accept"@ {
        if ws.len() > 1 { CommandView::Accept { quest_id: ws[1] } }
        else { CommandView::Invalid("Accept which quest?"@) }
    } else if key == "say"@ {
        if rest.len() == 0 { CommandView::Invalid("Say what?"@) }
        else { CommandView::Say { message: rest } }
    } else if key == "go"@ {
        if ws.len() > 1 { CommandView::Go { direction: direction_name(dir) } }
        else { CommandView::Invalid("Go where?"@) }
    } else if key == "n"@ || key == "s"@ || key == "e"@ || key == "w"@ || key == "u"@
        || key == "d"@ {
        CommandView::Go { direction: direction_name(key) }
    } else if key == "get"@ || key == "take"@ {
        if ws.len() > 1 { CommandView::Get { item: ws[1] } }
        else { CommandView::Invalid("Get what?"@) }
    } else if key == "drop"@ {
        if ws.len() > 1 { CommandView::Drop { item: ws[1] } }
        else { CommandView::Invalid("Drop what?"@) }
    } else if key == "i"@ || key == "inventory"@ {
        CommandView::Inventory
    } else if key == "alias"@ {
        if ws.len() > 1 {
            let aliased = join_words(ws.skip(2));
            if aliased.len() == 0 {
                CommandView::Invalid("What should the alias '"@ + ws[1] + "' do?"@)
            } else {
                CommandView::Alias { name: Some(ws[1]), command: Some(aliased) }
            }
        } else {
            CommandView::Alias { name: None, command: None }
        }
    } else if key == "unalias"@ {
        if ws.len() > 1 { CommandView::Unalias { name: ws[1] } }
        else { CommandView::Invalid("Unalias what?"@) }
    } else if key == "rest"@ {
        CommandView::Rest
    } else if key == "work"@ || key == "job"@ {
        CommandView::Work
    } else if key == "help"@ {
        CommandView::Help
    } else {
        CommandView::Unknown(first)
    }
}

pub open spec fn views_of(v: Seq<String>) -> Seq<Seq<char>> {
    v.map_values(|w: String| w@)
}

/// Splits a line into its whitespace-separated words.
pub fn split_words(s: &Vec<char>) -> (ws: Vec<String>)
    ensures
        views_of(ws@) == split_ws(s@),
{
    let mut ws: Vec<String> = Vec::new();
    let mut cur: Vec<char> = Vec::new();
    let mut i: usize = 0;
    proof {
        assert(s@.skip(0) =~= s@);
        assert(views_of(ws@) =~= Seq::<Seq<char>>::empty());
        assert(views_of(ws@) + words_from(s@.skip(0), cur@) =~= words_from(s@, seq![]));
    }
    while i < s.len()
        invariant
            i <= s.len(),
            views_of(ws@) + words_from(s@.skip(i as int), cur@) == split_ws(s@),
        decreases s.len() - i,
    {
        let c = s[i];
        proof {
            assert(s@.skip(i as int).drop_first() =~= s@.skip(i + 1));
            assert(s@.skip(i as int)[0] == c);
        }
        if is_whitespace(c) {
            if cur.len() > 0 {
                let w = string_of(cur.as_slice());
                let ghost before = ws@;
                ws.push(w);
                proof {
                    assert(views_of(ws@) =~= views_of(before) + seq![cur@]);
                }
                cur = Vec::new();
                proof {
                    assert(views_of(ws@) + words_from(s@.skip(i + 1), cur@) =~= views_of(before)
                        + (seq![w@] + words_from(s@.skip(i + 1), seq![])));
                }
            } else {
                assert(cur@ =~= seq![]);
            }
        } else {
            cur.push(c);
        }
        i = i + 1;
    }
    if cur.len() > 0 {
        let w = string_of(cur.as_slice());
        let ghost before = ws@;
        ws.push(w);
        proof {
            assert(s@.skip(i as int).len() == 0);
            assert(views_of(ws@) =~= views_of(before) + seq![cur@]);
        }
    } else {
        proof {
            assert(s@.skip(i as int).len() == 0);
            assert(views_of(ws@) =~= views_of(ws@) + words_from(s@.skip(i as int), cur@));
        }
    }
    ws
}

/// The words from position `from` on, joined by single spaces.
pub fn join_from(ws: &Vec<String>, from: usize) -> (r: String)
    requires
        from <= ws.len(),
    ensures
        r@ == join_words(views_of(ws@).skip(from as int)),
{
    let mut r = String::new();
    if from >= ws.len() {
        assert(views_of(ws@).skip(from as int) =~= Seq::<Seq<char>>::empty());
        return r;
    }
    let mut i: usize = from;
    while i < ws.len()
        invariant
            from < ws.len(),
            from <= i <= ws.len(),
            i == from ==> r@.len() == 0,
            r@ == join_words(views_of(ws@).subrange(from as int, i as int)),
        decreases ws.len() - i,
    {
        let ghost part = views_of(ws@).subrange(from as int, i + 1);
        proof {
            assert(part.drop_last() =~= views_of(ws@).subrange(from as int, i as int));
        }
        if i > from {
            push_char(&mut r, ' ');
        } else {
            assert(part =~= seq![ws@[i as int]@]);
        }
        r.append(ws[i].as_str());
        i = i + 1;
        assert(r@ =~= join_words(views_of(ws@).subrange(from as int, i as int)));
    }
    assert(views_of(ws@).subrange(from as int, i as int) =~= views_of(ws@).skip(from as int));
    r
}

/// The command meant by a line's words, given the lowercase forms of its
/// first and second words.
pub fn command_from_words(ws: &Vec<String>, key: &str, dir: &str) -> (c: Command)
    requires
        ws.len() > 0,
    ensures
        c@ == spec_command(views_of(ws@), key@, dir@),
{
    let ghost vws = views_of(ws@);
    let second: Option<String> = if ws.len() > 1 { Some(ws[1].clone()) } else { None };
    proof {
        if ws.len() > 1 {
            assert(vws[1] == ws@[1]@);
        }
    }
    if same_text(key, "attack") {
        match second {
            Some(t) => Command::Attack { target: t },
            None => Command::Invalid("Attack who?".to_string()),
        }
    } else if same_text(key, "perform") {
        match second {
            Some(t) => {
                let target = if ws.len() > 2 { Some(ws[2].clone()) } else { None };
                Command::Perform { skill: t, target }
            },
            None => Command::Invalid("Perform what?".to_string()),
        }
    } else if same_text(key, "look") {
        Command::Look
    } else if same_text(key, "score") || same_text(key, "status") || same_text(key, "attr") {
        Command::Score
    } else if same_text(key, "talk") || same_text(key, "chat") {
        match second {
            Some(t) => Command::Talk { target: t },
            None => Command::Invalid("Talk to who?".to_string()),
        }
    } else if same_text(key, "quest") || same_text(key, "qs") {
        Command::Quest
    } else if same_text(key, "accept") {
        match second {
            Some(t) => Command::Accept { quest_id: t },
            None => Command::Invalid("Accept which quest?".to_string()),
        }
    } else if same_text(key, "say") {
        let message = join_from(ws, 1);
        if message.unicode_len() == 0 {
            Command::Invalid("Say what?".to_string())
        } else {
            Command::Say { message }
        }
    } else if same_text(key, "go") {
        match second {
            Some(_) => Command::Go { direction: full_direction(dir) },
            None => Command::Invalid("Go where?".to_string()),
        }
    } else if same_text(key, "n") || same_text(key, "s") || same_text(key, "e") || same_text(
        key,
        "w",
    ) || same_text(key, "u") || same_text(key, "d") {
        Command::Go { direction: full_direction(key) }
    } else if same_text(key, "get") || same_text(key, "take") {
        match second {
            Some(t) => Command::Get { item: t },
            None => Command::Invalid("Get what?".to_string()),
        }
    } else if same_text(key, "drop") {
        match second {
            Some(t) => Command::Drop { item: t },
            None => Command::Invalid("Drop what?".to_string()),
        }
    } else if same_text(key, "i") || same_text(key, "inventory") {
        Command::Inventory
    } else if same_text(key, "alias") {
        match second {
            Some(name) => {
                let aliased = join_from(ws, 2);
                if aliased.unicode_len() == 0 {
                    let mut m = "What should the alias '".to_string();
                    m.append(name.as_str());
                    m.append("' do?");
                    Command::Invalid(m)
                } else {
                    Command::Alias { name: Some(name), command: Some(aliased) }
                }
            },
            None => Command::Alias { name: None, command: None },
        }
    } else if same_text(key, "unalias") {
        match second {
            Some(t) => Command::Unalias { name: t },
            None => Command::Invalid("Unalias what?".to_string()),
        }
    } else if same_text(key, "rest") {
        Command::Rest
    } else if same_text(key, "work") || same_text(key, "job") {
        Command::Work
    } else if same_text(key, "help") {
        Command::Help
    } else {
        Command::Unknown(ws[0].clone())
    }
}

/// The full name of a direction (`n` is `north`, and so on); any other word
/// is its own name.
pub fn full_direction(d: &str) -> (r: String)
    ensures
        r@ == direction_name(d@),
{
    if same_text(d, "n") {
        "north".to_string()
    } else if same_text(d, "s") {
        "south".to_string()
    } else if same_text(d, "e") {
        "east".to_string()
    } else if same_text(d, "w") {
        "west".to_string()
    } else if same_text(d, "u") {
        "up".to_string()
    } else if same_text(d, "d") {
        "down".to_string()
    } else {
        d.to_string()
    }
}

/// What a line of input means: invalid when it holds no word; otherwise
/// the command its words give, read with the lowercase forms of its first
/// two words.
pub open spec fn parsed(s: Seq<char>) -> CommandView {
    let ws = split_ws(s);
    if ws.len() == 0 {
        CommandView::Invalid("Empty command"@)
    } else {
        spec_command(ws, key_of(ws[0]), if ws.len() > 1 { key_of(ws[1]) } else { seq![] })
    }
}

/// The lowercase form of a word, as the parser reads it: ASCII capitals
/// lowered for an ASCII word, the Unicode lowercase form of any other.
pub open spec fn key_of(w: Seq<char>) -> Seq<char> {
    if is_ascii_text(w) { ascii_lowercase(w) } else { lowercase(w) }
}

/// Parses a line of player input. A line of only whitespace is invalid;
/// otherwise the first word, in lowercase, selects the command and the
/// following words are its arguments.
pub fn parse(input: &str) -> (c: Command)
    ensures
        c@ == parsed(input@),
{
    let chars = chars_of(input);
    let ws = split_words(&chars);
    if ws.len() == 0 {
        return Command::Invalid("Empty command".to_string());
    }
    let key = to_lowercase(ws[0].as_str());
    let dir = if ws.len() > 1 { to_lowercase(ws[1].as_str()) } else { String::new() };
    proof {
        assert(views_of(ws@)[0] == ws@[0]@);
        if ws.len() > 1 {
            assert(views_of(ws@)[1] == ws@[1]@);
        }
    }
    command_from_words(&ws, key.as_str(), dir.as_str())
}

} // verus!
