//! The text that a file shows: decimal numbers, the three faces of a kitty
//! and the journal that tallies them.

use vstd::prelude::*;
use vstd::string::*;

verus! {

/// The opening lines that every kitty's text shares, up to its name.
pub const GREETING: &'static str = r#"Hello StarCon!
My name is: "#;

/// What stands between the name and the number of pets still needed.
pub const NEED_PETS_MIDDLE: &'static str = r#"

I NEED TO BE PETTED

Please send me "#;

/// What follows the number of pets still needed.
pub const NEED_PETS_TAIL: &'static str = r#" pets
                           __ _..._ _
                           \ `)    `(/
                           /`       \
                           |   d  b  |
             .-"````"=-..--\=    Y  /=
           /`               `-.__=.'
    _     / /\                 /o
   ( \   / / |                 |
    \ '-' /   >    /`""--.    /
     '---'   /    ||      |   \\
             \___,,))      \_,,))
"#;

/// What follows the name of a kitty that has had exactly enough pets.
pub const HAPPY_TAIL: &'static str = r#"

WOW! YOU GAVE ME ENOUGH PETS!! :heart:

                           __ _..._ _
                           \ `)    `(/
                           /`       \
                           |   d  b  |
             .-"````"=-..--\=    Y  /=
           /`               `-.__=.'
    _     / /\                 /o
   ( \   / / |                 |
    \ '-' /   >    /`""--.    /
     '---'   /    ||      |   \\
             \___,,))      \_,,))
"#;

/// What follows the name of a kitty that was petted too much.
pub const FICKLE_TAIL: &'static str = r#"

MY HEART IS FICKLE! NO MORE PETS!!!!

                           __ _..._ _
                           \ `)    `(/
                           /`       \
                           |   d  b  |
             .-"````"=-..--\=    Y  /=
           /`               `-.__=.'
    _     / /\                 /o
   ( \   / / |                 |
    \ '-' /   >    /`""--.    /
     '---'   /    ||      |   \\
             \___,,))      \_,,))
"#;

/// The journal once every kitty is at peace.
pub const ALL_AT_PEACE: &'static str = r#"GAME OVER!!

All the kitties are at peace!!!

             *     ,MMM8&&&.            *
                  MMMM88&&&&&    .
                 MMMM88&&&&&&&
     *           MMM88&&&&&&&&
                 MMM88&&&&&&&&
                 'MMM88&&&&&&'
                   'MMM8&&&'      *
          |\___/|
          )     (             .              '
         =\     /=
           )===(       *
          /     \
          |     |
         /       \
         \       /
  _/\_/\_/\__  _/_/\_/\_/\_/\_/\_/\_/\_/\_/\_
  |  |  |  |( (  |  |  |  |  |  |  |  |  |  |
  |  |  |  | ) ) |  |  |  |  |  |  |  |  |  |
  |  |  |  |(_(  |  |  |  |  |  |  |  |  |  |
  |  |  |  |  |  |  |  |  |  |  |  |  |  |  |
  |  |  |  |  |  |  |  |  |  |  |  |  |  |  |
  "#;

/// The journal once no kitty needs pets and some are mad, up to their number.
pub const MAD_HEAD: &'static str = r#"GAME OVER!!!

SO MANY KITIES ARE MAD AT U!!!!!!!!!!!! :-(
       ___
   _.-|   |          |\__/,|   (`\
  (   | "#;

/// What follows the number of mad kitties.
pub const MAD_TAIL: &'static str = r#" |          |o o  |__ _) )
   "-.|___|        _.( T   )  `  /
    .--'-`-.     _((_ `^--' /_<  \
  .+|______|__.-||__)`-'(((/  (((/

        "#;

/// The journal while some kitty still needs pets, up to their number.
pub const DIARY_HEAD: &'static str = r#"Dear Diary,

All my friends are at StarCon! :(

I have to stay at home and pet these kitties :~(

Here's what I've done so far:

* "#;

/// What follows the number of kitties that need pets.
pub const DIARY_NEEDING: &'static str = r#" kitties still need pets
* "#;

/// What follows the number of kitties at peace.
pub const DIARY_AT_PEACE: &'static str = r#" kitties are at peace with the world
* "#;

/// What follows the number of mad kitties in the diary.
pub const DIARY_MAD: &'static str = r#" kitties are mad because I petted them too much!
"#;

/// The character that stands for the decimal digit `d`.
pub open spec fn digit_char(d: int) -> char {
    if d == 0 {
        '0'
    } else if d == 1 {
        '1'
    } else if d == 2 {
        '2'
    } else if d == 3 {
        '3'
    } else if d == 4 {
        '4'
    } else if d == 5 {
        '5'
    } else if d == 6 {
        '6'
    } else if d == 7 {
        '7'
    } else if d == 8 {
        '8'
    } else {
        '9'
    }
}

/// The decimal digits of a natural number, most significant first, without
/// leading zeros.
pub open spec fn decimal_nat(n: nat) -> Seq<char>
    decreases n,
{
    if n < 10 {
        seq![digit_char(n as int)]
    } else {
        decimal_nat(n / 10).push(digit_char((n % 10) as int))
    }
}

/// The decimal text of an integer: a minus sign for a negative number, then
/// the digits of its magnitude.
pub open spec fn decimal(n: int) -> Seq<char> {
    if n < 0 {
        seq!['-'] + decimal_nat((-n) as nat)
    } else {
        decimal_nat(n as nat)
    }
}

/// What a kitty that still needs `pets_needed` pets shows.
pub open spec fn need_pets_text(name: Seq<char>, pets_needed: int) -> Seq<char> {
    GREETING@ + name + NEED_PETS_MIDDLE@ + decimal(pets_needed) + NEED_PETS_TAIL@
}

/// What a kitty that has had exactly enough pets shows.
pub open spec fn happy_kitty_text(name: Seq<char>) -> Seq<char> {
    GREETING@ + name + HAPPY_TAIL@
}

/// What a kitty that was petted too much shows.
pub open spec fn no_more_pets_text(name: Seq<char>) -> Seq<char> {
    GREETING@ + name + FICKLE_TAIL@
}

/// The three states of a kitty, by the number of pets it still needs.
#[derive(Clone, Copy, Debug, PartialEq, Eq, Structural)]
pub enum Mood {
    /// It needs more pets (the counter is positive).
    Needing,
    /// It has had exactly enough (the counter is zero).
    AtPeace,
    /// It was petted too much (the counter is negative).
    Mad,
}

/// The state that a counter stands for.
pub open spec fn mood_of(pets_needed: int) -> Mood {
    if pets_needed > 0 {
        Mood::Needing
    } else if pets_needed == 0 {
        Mood::AtPeace
    } else {
        Mood::Mad
    }
}

/// What a kitty shows: a function of its name and its counter alone.
pub open spec fn kitty_text(name: Seq<char>, pets_needed: int) -> Seq<char> {
    match mood_of(pets_needed) {
        Mood::Needing => need_pets_text(name, pets_needed),
        Mood::AtPeace => happy_kitty_text(name),
        Mood::Mad => no_more_pets_text(name),
    }
}

/// What the journal shows for the given numbers of kitties that need pets,
/// are at peace, and are mad.
pub open spec fn status_text(needing: int, at_peace: int, mad: int) -> Seq<char> {
    if needing == 0 && mad == 0 {
        ALL_AT_PEACE@
    } else if needing == 0 {
        MAD_HEAD@ + decimal(mad) + MAD_TAIL@
    } else {
        DIARY_HEAD@ + decimal(needing) + DIARY_NEEDING@ + decimal(at_peace) + DIARY_AT_PEACE@
            + decimal(mad) + DIARY_MAD@
    }
}

/// The bytes of a text as a client of the mount reads them.
pub open spec fn text_bytes(text: Seq<char>) -> Seq<u8> {
    vstd::utf8::encode_utf8(text)
}

fn digit_str(d: u64) -> (r: &'static str)
    requires
        d < 10,
    ensures
        r@ == seq![digit_char(d as int)],
{
    proof {
        reveal_strlit("0");
        reveal_strlit("1");
        reveal_strlit("2");
        reveal_strlit("3");
        reveal_strlit("4");
        reveal_strlit("5");
        reveal_strlit("6");
        reveal_strlit("7");
        reveal_strlit("8");
        reveal_strlit("9");
    }
    let r = if d == 0 {
        "0"
    } else if d == 1 {
        "1"
    } else if d == 2 {
        "2"
    } else if d == 3 {
        "3"
    } else if d == 4 {
        "4"
    } else if d == 5 {
        "5"
    } else if d == 6 {
        "6"
    } else if d == 7 {
        "7"
    } else if d == 8 {
        "8"
    } else {
        "9"
    };
    assert(r@ =~= seq![digit_char(d as int)]);
    r
}

/// Appends the decimal digits of `n` to `out`.
pub fn push_decimal(out: &mut String, n: u64)
    ensures
        final(out)@ == old(out)@ + decimal_nat(n as nat),
    decreases n,
{
    if n >= 10 {
        push_decimal(out, n / 10);
    }
    out.append(digit_str(n % 10));
}

/// Appends the decimal text of `n` to `out`, with a minus sign where `n` is
/// negative.
pub fn push_signed_decimal(out: &mut String, n: i32)
    ensures
        final(out)@ == old(out)@ + decimal(n as int),
{
    if n < 0 {
        proof {
            reveal_strlit("-");
        }
        out.append("-");
        assert(out@ =~= old(out)@ + seq!['-']);
        let magnitude: u64 = (-(n as i64)) as u64;
        push_decimal(out, magnitude);
        assert(out@ =~= old(out)@ + decimal(n as int));
    } else {
        push_decimal(out, n as u64);
    }
}

/// The text of a kitty that still needs pets.
pub fn need_pets_content(name: &String, pets_needed: i32) -> (text: String)
    ensures
        text@ == need_pets_text(name@, pets_needed as int),
{
    let mut text = String::from_str(GREETING);
    text.append(name.as_str());
    text.append(NEED_PETS_MIDDLE);
    push_signed_decimal(&mut text, pets_needed);
    text.append(NEED_PETS_TAIL);
    text
}

/// The text of a kitty that has had exactly enough pets.
pub fn happy_kitty_content(name: &String) -> (text: String)
    ensures
        text@ == happy_kitty_text(name@),
{
    let mut text = String::from_str(GREETING);
    text.append(name.as_str());
    text.append(HAPPY_TAIL);
    text
}

/// The text of a kitty that was petted too much.
pub fn no_more_pets(name: &String) -> (text: String)
    ensures
        text@ == no_more_pets_text(name@),
{
    let mut text = String::from_str(GREETING);
    text.append(name.as_str());
    text.append(FICKLE_TAIL);
    text
}

/// The text of a kitty with the given name and counter, whatever its state.
pub fn kitty_content(name: &String, pets_needed: i32) -> (text: String)
    ensures
        text@ == kitty_text(name@, pets_needed as int),
{
    if pets_needed > 0 {
        need_pets_content(name, pets_needed)
    } else if pets_needed == 0 {
        happy_kitty_content(name)
    } else {
        no_more_pets(name)
    }
}

/// The number of bytes that a text takes when a client reads it.
pub fn byte_len(text: &String) -> (len: u64)
    ensures
        len == text_bytes(text@).len(),
{
    text.as_str().as_bytes().len() as u64
}

/// How many kitties need pets, are at peace, and are mad.
#[derive(Clone, Copy, Debug, PartialEq, Eq, Structural)]
pub struct GameStatus {
    pub kitties_needing_pets: u64,
    pub kitties_at_peace: u64,
    pub kitties_mad: u64,
}

impl GameStatus {
    /// A tally with the given three counts.
    pub fn new(kitties_needing_pets: u64, kitties_at_peace: u64, kitties_mad: u64) -> (status:
        GameStatus)
        ensures
            status == (GameStatus { kitties_needing_pets, kitties_at_peace, kitties_mad }),
    {
        GameStatus { kitties_needing_pets, kitties_at_peace, kitties_mad }
    }

    /// The text of this tally.
    pub open spec fn text(self) -> Seq<char> {
        status_text(
            self.kitties_needing_pets as int,
            self.kitties_at_peace as int,
            self.kitties_mad as int,
        )
    }

    /// The journal's text for this tally: the game is over once no kitty
    /// needs pets, and until then the diary lists the three counts.
    pub fn to_content(&self) -> (text: String)
        ensures
            text@ == self.text(),
    {
        if self.kitties_needing_pets == 0 && self.kitties_mad == 0 {
            String::from_str(ALL_AT_PEACE)
        } else if self.kitties_needing_pets == 0 {
            let mut text = String::from_str(MAD_HEAD);
            push_decimal(&mut text, self.kitties_mad);
            text.append(MAD_TAIL);
            text
        } else {
            let mut text = String::from_str(DIARY_HEAD);
            push_decimal(&mut text, self.kitties_needing_pets);
            text.append(DIARY_NEEDING);
            push_decimal(&mut text, self.kitties_at_peace);
            text.append(DIARY_AT_PEACE);
            push_decimal(&mut text, self.kitties_mad);
            text.append(DIARY_MAD);
            text
        }
    }
}

} // verus!
