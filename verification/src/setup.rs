//! Game setup: the player kinds, the front-end choice, and the
//! interpretation of the text a player types when configuring a game.
//! Reading the terminal stays outside; everything decided about the text
//! read is decided here.

use vstd::prelude::*;

use crate::search::{spec_root_search, Bot};
use crate::types::{Move, Side};

verus! {

/// Who controls a side: a person at the terminal, or the engine.
#[derive(Clone, Copy, Debug, PartialEq, Eq, Structural)]
pub enum PlayerType {
    Human,
    Bot,
}

/// Where the game is shown: in the terminal, or in a window.
#[derive(Clone, Copy, Debug, PartialEq, Eq, Structural)]
pub enum GameVisual {
    CommandLine,
    Gui,
}

/// Whether two texts hold the same characters.
pub fn str_eq(a: &str, b: &str) -> (r: bool)
    ensures
        r == (a@ == b@),
{
    let n = a.unicode_len();
    let m = b.unicode_len();
    if n != m {
        return false;
    }
    let mut i: usize = 0;
    while i < n
        invariant
            n == a@.len(),
            n == b@.len(),
            i <= n,
            forall|j: int| 0 <= j < i ==> a@[j] == b@[j],
        decreases n - i,
    {
        if a.get_char(i) != b.get_char(i) {
            return false;
        }
        i = i + 1;
    }
    proof {
        assert(a@ =~= b@);
    }
    true
}

/// The player kind a typed answer names, if it names one.
pub open spec fn spec_player_choice(s: Seq<char>) -> Option<PlayerType> {
    if s == "human"@ {
        Some(PlayerType::Human)
    } else if s == "bot"@ {
        Some(PlayerType::Bot)
    } else {
        None
    }
}

/// Interpret the answer to the player prompt: exactly "human" or "bot".
pub fn parse_player_choice(s: &str) -> (r: Option<PlayerType>)
    ensures
        r == spec_player_choice(s@),
{
    if str_eq(s, "human") {
        Some(PlayerType::Human)
    } else if str_eq(s, "bot") {
        Some(PlayerType::Bot)
    } else {
        None
    }
}

/// The front end a typed answer names, if it names one.
pub open spec fn spec_visual_choice(s: Seq<char>) -> Option<GameVisual> {
    if s == "commandline"@ {
        Some(GameVisual::CommandLine)
    } else if s == "gui"@ {
        Some(GameVisual::Gui)
    } else {
        None
    }
}

/// Interpret the answer to the front-end prompt: exactly "commandline" or
/// "gui".
pub fn parse_visual_choice(s: &str) -> (r: Option<GameVisual>)
    ensures
        r == spec_visual_choice(s@),
{
    if str_eq(s, "commandline") {
        Some(GameVisual::CommandLine)
    } else if str_eq(s, "gui") {
        Some(GameVisual::Gui)
    } else {
        None
    }
}

/// Whether a character is a decimal digit, by code point.
pub open spec fn is_digit(c: char) -> bool {
    48 <= c as int && c as int <= 57
}

/// The value of a string of decimal digits, most significant first.
pub open spec fn digits_value(s: Seq<char>) -> int
    decreases s.len(),
{
    if s.len() == 0 {
        0
    } else {
        digits_value(s.drop_last()) * 10 + (s.last() as int - 48)
    }
}

/// Whether every character of a text is a decimal digit.
pub open spec fn all_digits(s: Seq<char>) -> bool {
    forall|i: int| 0 <= i < s.len() ==> is_digit(#[trigger] s[i])
}

proof fn lemma_digits_value_nonneg(s: Seq<char>)
    requires
        all_digits(s),
    ensures
        digits_value(s) >= 0,
    decreases s.len(),
{
    if s.len() > 0 {
        lemma_digits_value_nonneg(s.drop_last());
    }
}

/// The number a typed answer names: an optional plus sign, then decimal
/// digits, with a value that fits in a byte.
pub open spec fn spec_parse_u8(s: Seq<char>) -> Option<u8> {
    let body = if s.len() > 0 && s[0] == '+' {
        s.subrange(1, s.len() as int)
    } else {
        s
    };
    if body.len() == 0 || !all_digits(body) {
        None
    } else if digits_value(body) <= 255 {
        Some(digits_value(body) as u8)
    } else {
        None
    }
}

/// Parse a decimal number that fits in a byte, as the depth prompt takes
/// one.
pub fn parse_u8(s: &str) -> (r: Option<u8>)
    ensures
        r == spec_parse_u8(s@),
{
    let n = s.unicode_len();
    let start: usize = if n > 0 && s.get_char(0) == '+' {
        1
    } else {
        0
    };
    let ghost body = if s@.len() > 0 && s@[0] == '+' {
        s@.subrange(1, s@.len() as int)
    } else {
        s@
    };
    proof {
        assert(body =~= s@.subrange(start as int, s@.len() as int));
    }
    if n == start {
        return None;
    }
    // 256 is a sentinel: the digits seen so far already exceed a byte.
    let mut acc: u32 = 0;
    let mut i: usize = start;
    while i < n
        invariant
            n == s@.len(),
            start <= i <= n,
            start == (if s@.len() > 0 && s@[0] == '+' {
                1int
            } else {
                0int
            }),
            body == s@.subrange(start as int, s@.len() as int),
            forall|j: int| start <= j < i ==> is_digit(#[trigger] s@[j]),
            acc <= 256,
            acc <= 255 ==> acc == digits_value(s@.subrange(start as int, i as int)),
            acc == 256 ==> digits_value(s@.subrange(start as int, i as int)) > 255,
        decreases n - i,
    {
        let c = s.get_char(i);
        let u = c as u32;
        if !(48 <= u && u <= 57) {
            proof {
                assert(body[i - start] == s@[i as int]);
                assert(c as int == u as int);
                assert(!is_digit(body[i - start]));
                assert(0 <= i - start < body.len());
                assert(!all_digits(body));
                if start == 0 {
                    assert(body =~= s@);
                }
            }
            return None;
        }
        let d: u32 = u - 48;
        proof {
            let prefix = s@.subrange(start as int, i as int);
            let prefix1 = s@.subrange(start as int, i + 1);
            assert(prefix1.drop_last() =~= prefix);
            assert(prefix1.last() == s@[i as int]);
        }
        acc = if acc <= 255 {
            let next = acc * 10 + d;
            if next > 255 {
                256
            } else {
                next
            }
        } else {
            256
        };
        i = i + 1;
    }
    proof {
        assert(body =~= s@.subrange(start as int, n as int));
        assert(all_digits(body));
    }
    if acc <= 255 {
        Some(acc as u8)
    } else {
        None
    }
}

/// The search depth a typed answer configures: the number it names, or
/// three when it names none.
pub open spec fn spec_depth_choice(s: Seq<char>) -> u8 {
    match spec_parse_u8(s) {
        Some(d) => d,
        None => 3,
    }
}

/// Interpret the answer to the depth prompt.
pub fn parse_depth_choice(s: &str) -> (r: u8)
    ensures
        r == spec_depth_choice(s@),
{
    match parse_u8(s) {
        Some(d) => d,
        None => 3,
    }
}

/// What a trailing line break trims to: drop one final newline, and a
/// carriage return just before it.
pub open spec fn spec_trim_newline(s: Seq<char>) -> Seq<char> {
    if s.len() > 0 && s.last() == '\n' {
        let t = s.drop_last();
        if t.len() > 0 && t.last() == '\r' {
            t.drop_last()
        } else {
            t
        }
    } else {
        s
    }
}

/// Remove a trailing line break from a line read from the terminal.
pub fn trim_newline(s: &mut String)
    ensures
        final(s)@ == spec_trim_newline(old(s)@),
{
    let n = s.as_str().unicode_len();
    if n > 0 && s.as_str().get_char(n - 1) == '\n' {
        let keep: usize = if n > 1 && s.as_str().get_char(n - 2) == '\r' {
            n - 2
        } else {
            n - 1
        };
        let trimmed = String::from_str(s.as_str().substring_char(0, keep));
        proof {
            assert(old(s)@.subrange(0, keep as int) =~= spec_trim_newline(old(s)@));
        }
        *s = trimmed;
    }
}

/// One participant of a game: a kind, a color, and the engine it uses when
/// it is an engine.
pub struct Player {
    player_type: PlayerType,
    color: Side,
    bot_ref: Bot,
}

impl Player {
    /// The kind of the player.
    pub closed spec fn spec_player_type(self) -> PlayerType {
        self.player_type
    }

    /// The color the player plays.
    pub closed spec fn spec_color(self) -> Side {
        self.color
    }

    /// The engine behind the player.
    pub closed spec fn spec_bot(self) -> Bot {
        self.bot_ref
    }

    /// A player built by one of the constructors: its engine is sound.
    pub closed spec fn wf(self) -> bool {
        self.bot_ref.wf()
    }

    /// A person at the terminal playing the given color.
    pub fn new_human(color: Side) -> (r: Player)
        ensures
            r.spec_player_type() == PlayerType::Human,
            r.spec_color() == color,
            r.wf(),
    {
        Player { player_type: PlayerType::Human, color, bot_ref: Bot::new(color, 0, false) }
    }

    /// An engine playing the given color at the given depth.
    pub fn new_bot(color: Side, depth: u8, debug: bool) -> (r: Player)
        ensures
            r.spec_player_type() == PlayerType::Bot,
            r.spec_color() == color,
            r.spec_bot().spec_depth() == depth,
            r.spec_bot().spec_objective() == if color == Side::White {
                1int
            } else {
                -1int
            },
            r.wf(),
    {
        Player { player_type: PlayerType::Bot, color, bot_ref: Bot::new(color, depth, debug) }
    }

    /// Whether this player's moves come from the terminal.
    pub fn is_human(&self) -> (r: bool)
        ensures
            r == (self.spec_player_type() == PlayerType::Human),
    {
        matches!(self.player_type, PlayerType::Human)
    }

    /// The move the player's engine picks on this board.
    pub fn bot_move(&self, board: &chess::Board) -> (r: Move)
        requires
            self.wf(),
        ensures
            ({
                let s = spec_root_search(
                    *board,
                    self.spec_bot().spec_depth(),
                    self.spec_bot().spec_objective(),
                );
                r == match s.1 {
                    Some(m) => m,
                    None => Move { from: 0, to: 8, promotion: None },
                }
            }),
    {
        self.bot_ref.get_move(board)
    }
}

} // verus!
