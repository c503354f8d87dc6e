//! Chat commands: which one a message asks for, and the queue listing reply.
use vstd::prelude::*;
use vstd::string::*;
use crate::paths::{decimal, push_decimal};

verus! {

/// A command addressed to the player.
#[derive(PartialEq, Eq, Debug)]
pub enum Command {
    Join,
    /// `!play` with the rest of the message as the request.
    Play(String),
    /// `!play` with nothing after it.
    PlayUsage,
    Pause,
    Resume,
    Skip,
    Stop,
    Queue,
    Leave,
    Shutdown,
}

/// The message with surrounding white space removed, as `str::trim` does.
pub uninterp spec fn trim_of(s: Seq<char>) -> Seq<char>;

/// Relies on `str::trim`: the result is the argument without leading and
/// trailing white space, a function of its characters alone.
#[verifier::external_body]
fn trim(s: &str) -> (r: &str)
    ensures
        r@ == trim_of(s@),
{
    s.trim()
}

/// `i` ends the first word of `s`: the first space, or the end.
pub open spec fn word_end(s: Seq<char>, i: int) -> bool {
    &&& 0 <= i <= s.len()
    &&& (i == s.len() || s[i] == ' ')
    &&& forall|k: int| 0 <= k < i ==> s[k] != ' '
}

/// `r` is what a message whose first word is `word`, followed by `rest`
/// after the first space (if there is one), asks for.
pub open spec fn parsed_as(r: Option<Command>, word: Seq<char>, rest: Option<Seq<char>>) -> bool {
    match r {
        Some(Command::Join) => word == "!join"@,
        Some(Command::Play(q)) => word == "!play"@ && rest == Some(q@),
        Some(Command::PlayUsage) => word == "!play"@ && rest.is_none(),
        Some(Command::Pause) => word == "!pause"@,
        Some(Command::Resume) => word == "!resume"@,
        Some(Command::Skip) => word == "!skip"@,
        Some(Command::Stop) => word == "!stop"@,
        Some(Command::Queue) => word == "!queue"@,
        Some(Command::Leave) => word == "!leave"@,
        Some(Command::Shutdown) => word == "!shutdown"@,
        None => word != "!join"@ && word != "!play"@ && word != "!pause"@ && word != "!resume"@
            && word != "!skip"@ && word != "!stop"@ && word != "!queue"@ && word != "!leave"@
            && word != "!shutdown"@,
    }
}

/// One line of the queue listing: the head is marked as playing, the others
/// are numbered from 1.
pub open spec fn listing_line(i: nat, song: Seq<char>) -> Seq<char> {
    if i == 0 {
        "\u{25b6}\u{fe0f} "@ + song
    } else {
        decimal(i) + ". "@ + song
    }
}

/// The lines of the listing of `songs`, joined by newlines.
pub open spec fn listing(songs: Seq<Seq<char>>) -> Seq<char>
    decreases songs.len(),
{
    if songs.len() == 0 {
        Seq::empty()
    } else if songs.len() == 1 {
        listing_line(0, songs[0])
    } else {
        listing(songs.drop_last()) + "\n"@ + listing_line((songs.len() - 1) as nat, songs.last())
    }
}

/// The reply to a request for the queue.
pub open spec fn queue_reply_spec(songs: Seq<Seq<char>>) -> Seq<char> {
    if songs.len() == 0 {
        "Queue is empty!"@
    } else {
        "**Queue:**\n"@ + listing(songs)
    }
}

/// The reply listing the pending requests `songs`, head first.
pub fn queue_reply(songs: &Vec<String>) -> (r: String)
    ensures
        r@ == queue_reply_spec(songs@.map_values(|s: String| s@)),
{
    let ghost sv = songs@.map_values(|s: String| s@);
    proof {
        reveal_strlit("Queue is empty!");
        reveal_strlit("**Queue:**\n");
        reveal_strlit("\u{25b6}\u{fe0f} ");
        reveal_strlit(". ");
        reveal_strlit("\n");
    }
    if songs.len() == 0 {
        return String::from_str("Queue is empty!");
    }
    let mut r = String::from_str("**Queue:**\n");
    let mut i: usize = 0;
    while i < songs.len()
        invariant
            sv == songs@.map_values(|s: String| s@),
            i <= songs@.len(),
            songs@.len() > 0,
            r@ == "**Queue:**\n"@ + listing(sv.take(i as int)),
        decreases songs@.len() - i,
    {
        let ghost before = r@;
        if i == 0 {
            r.append("\u{25b6}\u{fe0f} ");
        } else {
            r.append("\n");
            push_decimal(&mut r, i as u64);
            r.append(". ");
        }
        r.append(songs[i].as_str());
        proof {
            let t = sv.take(i + 1);
            assert(t.drop_last() =~= sv.take(i as int));
            assert(t.last() == songs@[i as int]@);
            if i == 0 {
                assert(sv.take(0) =~= Seq::<Seq<char>>::empty());
                assert(r@ =~= "**Queue:**\n"@ + listing(t));
            } else {
                assert(r@ =~= "**Queue:**\n"@ + listing(t));
            }
        }
        i = i + 1;
    }
    assert(sv.take(i as int) =~= sv);
    r
}

/// Whether two strings hold the same characters.
pub fn same_text(a: &str, b: &str) -> (r: bool)
    ensures
        r == (a@ == b@),
{
    let n = a.unicode_len();
    if n != b.unicode_len() {
        return false;
    }
    let mut i: usize = 0;
    while i < n
        invariant
            n == a@.len(),
            n == b@.len(),
            i <= n,
            forall|k: int| 0 <= k < i ==> a@[k] == b@[k],
        decreases n - i,
    {
        if a.get_char(i) != b.get_char(i) {
            return false;
        }
        i = i + 1;
    }
    assert(a@ =~= b@);
    true
}

/// The position that ends the first word of `s`.
fn first_word_end(s: &str) -> (r: usize)
    ensures
        word_end(s@, r as int),
{
    let n = s.unicode_len();
    let mut i: usize = 0;
    while i < n
        invariant
            n == s@.len(),
            i <= n,
            forall|k: int| 0 <= k < i ==> s@[k] != ' ',
        decreases n - i,
    {
        if s.get_char(i) == ' ' {
            return i;
        }
        i = i + 1;
    }
    i
}

/// The command in a message that is already trimmed: its first word names
/// the command, and the text after the first space is its argument.
pub fn parse_trimmed(content: &str) -> (r: Option<Command>)
    ensures
        forall|i: int| word_end(content@, i) ==> parsed_as(
            r,
            content@.subrange(0, i),
            if i < content@.len() { Some(content@.subrange(i + 1, content@.len() as int)) } else { None },
        ),
{
    let i = first_word_end(content);
    let n = content.unicode_len();
    let word = content.substring_char(0, i);
    let rest: Option<&str> = if i < n { Some(content.substring_char(i + 1, n)) } else { None };
    proof {
        assert forall|j: int| word_end(content@, j) implies j == i by {
            if j < i {
                assert(content@[j] != ' ');
            }
            if i < j {
                assert(content@[i as int] != ' ');
            }
        }
        reveal_strlit("!join");
        reveal_strlit("!play");
        reveal_strlit("!pause");
        reveal_strlit("!resume");
        reveal_strlit("!skip");
        reveal_strlit("!stop");
        reveal_strlit("!queue");
        reveal_strlit("!leave");
        reveal_strlit("!shutdown");
    }
    if same_text(word, "!join") {
        Some(Command::Join)
    } else if same_text(word, "!play") {
        match rest {
            Some(q) => Some(Command::Play(String::from_str(q))),
            None => Some(Command::PlayUsage),
        }
    } else if same_text(word, "!pause") {
        Some(Command::Pause)
    } else if same_text(word, "!resume") {
        Some(Command::Resume)
    } else if same_text(word, "!skip") {
        Some(Command::Skip)
    } else if same_text(word, "!stop") {
        Some(Command::Stop)
    } else if same_text(word, "!queue") {
        Some(Command::Queue)
    } else if same_text(word, "!leave") {
        Some(Command::Leave)
    } else if same_text(word, "!shutdown") {
        Some(Command::Shutdown)
    } else {
        None
    }
}

/// The command a chat message asks for, once surrounding white space is removed.
pub fn parse_command(message: &str) -> (r: Option<Command>)
    ensures
        forall|i: int| word_end(trim_of(message@), i) ==> parsed_as(
            r,
            trim_of(message@).subrange(0, i),
            if i < trim_of(message@).len() {
                Some(trim_of(message@).subrange(i + 1, trim_of(message@).len() as int))
            } else {
                None
            },
        ),
{
    parse_trimmed(trim(message))
}

} // verus!
