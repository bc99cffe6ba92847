//! How a message is typed into the chat box: one keystroke per character,
//! with now and then a mistyped word that is erased again, and Enter last.

use vstd::prelude::*;
use rand::Rng;
use crate::text::chars_of;

verus! {

/// One key pressed in the chat box.
#[derive(Clone, Copy, Debug, PartialEq, Eq, Structural)]
pub enum Keystroke {
    Char(char),
    Backspace,
    Enter,
}

/// The number of faces of the die rolled before each character.
pub const ROLL_SIDES: u8 = 30;

/// The roll on which a slip is typed before the character.
pub const SLIP_ROLL: u8 = 7;

/// The keys pressed for a slip: four letters, then four erasures.
pub open spec fn slip() -> Seq<Keystroke> {
    seq![
        Keystroke::Char('a'),
        Keystroke::Char('s'),
        Keystroke::Char('d'),
        Keystroke::Char('f'),
        Keystroke::Backspace,
        Keystroke::Backspace,
        Keystroke::Backspace,
        Keystroke::Backspace,
    ]
}

/// The keys pressed for character `c` under `roll`.
pub open spec fn keys_for(c: char, roll: Option<u8>) -> Seq<Keystroke> {
    if roll == Some(SLIP_ROLL) {
        slip().push(Keystroke::Char(c))
    } else {
        seq![Keystroke::Char(c)]
    }
}

/// The roll for position `i`, where one was drawn.
pub open spec fn roll_at(rolls: Seq<u8>, i: int) -> Option<u8> {
    if 0 <= i < rolls.len() {
        Some(rolls[i])
    } else {
        None
    }
}

/// The keys pressed for the first `n` characters of `cs`.
pub open spec fn keys_upto(cs: Seq<char>, rolls: Seq<u8>, n: int) -> Seq<Keystroke>
    decreases n,
{
    if n <= 0 {
        Seq::empty()
    } else {
        keys_upto(cs, rolls, n - 1) + keys_for(cs[n - 1], roll_at(rolls, n - 1))
    }
}

/// The keys pressed to type and send `cs`: character `i` takes roll `i`, where
/// one was drawn; Enter comes last.
pub open spec fn typing_keys(cs: Seq<char>, rolls: Seq<u8>) -> Seq<Keystroke> {
    keys_upto(cs, rolls, cs.len() as int).push(Keystroke::Enter)
}

proof fn lemma_slip_keys(before: Seq<Keystroke>, c: char)
    ensures
        before + keys_for(c, Some(SLIP_ROLL)) == (before + slip()).push(Keystroke::Char(c)),
{
    assert(before + keys_for(c, Some(SLIP_ROLL)) =~= (before + slip()).push(Keystroke::Char(c)));
}

proof fn lemma_plain_keys(before: Seq<Keystroke>, c: char, roll: Option<u8>)
    requires
        roll != Some(SLIP_ROLL),
    ensures
        before + keys_for(c, roll) == before.push(Keystroke::Char(c)),
{
    assert(before + keys_for(c, roll) =~= before.push(Keystroke::Char(c)));
}

/// The keystrokes that type and send `message` under the given rolls.
pub fn plan_typing(message: &str, rolls: &Vec<u8>) -> (r: Vec<Keystroke>)
    ensures
        r@ == typing_keys(message@, rolls@),
{
    let cs = chars_of(message);
    let mut r: Vec<Keystroke> = Vec::new();
    let mut i: usize = 0;
    while i < cs.len()
        invariant
            cs@ == message@,
            i <= cs@.len(),
            r@ == keys_upto(cs@, rolls@, i as int),
        decreases cs.len() - i,
    {
        let c = cs[i];
        let ghost before = r@;
        assert(keys_upto(cs@, rolls@, i as int + 1) == before + keys_for(c, roll_at(rolls@, i as int)));
        if i < rolls.len() && rolls[i] == SLIP_ROLL {
            r.push(Keystroke::Char('a'));
            r.push(Keystroke::Char('s'));
            r.push(Keystroke::Char('d'));
            r.push(Keystroke::Char('f'));
            r.push(Keystroke::Backspace);
            r.push(Keystroke::Backspace);
            r.push(Keystroke::Backspace);
            r.push(Keystroke::Backspace);
            assert(r@ =~= before + slip());
            r.push(Keystroke::Char(c));
            assert(roll_at(rolls@, i as int) == Some(SLIP_ROLL));
            proof {
                lemma_slip_keys(before, c);
            }
        } else {
            r.push(Keystroke::Char(c));
            proof {
                lemma_plain_keys(before, c, roll_at(rolls@, i as int));
            }
        }
        i = i + 1;
    }
    r.push(Keystroke::Enter);
    r
}

/// Relies on rand's `thread_rng` and `Rng::gen_range`: a value drawn from the
/// inclusive range `lo..=hi`, which must not be empty.
#[verifier::external_body]
fn roll(lo: u8, hi: u8) -> (r: u8)
    requires
        lo <= hi,
    ensures
        lo <= r <= hi,
{
    rand::thread_rng().gen_range(lo..=hi)
}

/// Draws `n` rolls of the die.
pub fn draw_rolls(n: usize) -> (r: Vec<u8>)
    ensures
        r@.len() == n,
        forall|i: int| 0 <= i < n ==> 1 <= #[trigger] r@[i] <= ROLL_SIDES,
{
    let mut r: Vec<u8> = Vec::new();
    while r.len() < n
        invariant
            r@.len() <= n,
            forall|i: int| 0 <= i < r@.len() ==> 1 <= #[trigger] r@[i] <= ROLL_SIDES,
        decreases n - r@.len(),
    {
        let x = roll(1, ROLL_SIDES);
        r.push(x);
    }
    r
}

/// The keystrokes that type and send `message`, with a fresh roll for each
/// character.
pub fn type_message(message: &str) -> (r: Vec<Keystroke>)
    ensures
        exists|rolls: Seq<u8>|
            rolls.len() == message@.len() && (forall|i: int|
                0 <= i < rolls.len() ==> 1 <= #[trigger] rolls[i] <= ROLL_SIDES) && r@
                == typing_keys(message@, rolls),
{
    let n = message.unicode_len();
    let rolls = draw_rolls(n);
    let r = plan_typing(message, &rolls);
    assert(rolls@.len() == message@.len() && (forall|i: int|
        0 <= i < rolls@.len() ==> 1 <= #[trigger] rolls@[i] <= ROLL_SIDES) && r@ == typing_keys(
        message@,
        rolls@,
    ));
    r
}

} // verus!
