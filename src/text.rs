use crate::engine::{GameMode, Notice};
use crate::item::Item;
use crate::protocol::Data;
use vstd::prelude::*;
use vstd::string::*;

verus! {

/// The name of the game.
pub const GAME_NAME: &'static str = "Pick the Right Stuff";

/// The rules in the mode where participants look at the live locker.
pub const RULES_ZERO: &'static str = "In this game, you will play the role of a warehouse manager. The warehouse contains two rooms. Room 1 is used for storing items, with each item stored in a certain position inside the opaque locker. You are situated in the Room 2, which contains a monitor that allows you to see the content of the opaque locker located in the Room 1 through the camera inside the opaque locker. Due to malfunctions in the locker system, it randomly resets the positions of the items in the opaque locker from time to time. To ensure that each user retrieves their stored item correctly, when a user comes to retrieve an item, you are required to predict the position of the item the user believes (the user will always retrieve their item based on the position they last believed). You only need to tell the system which position inside the locker the user will go to retrieve their item and then the locker system will automatically swap the item at that location with the one belonging to the user. During the game, users may or may not enter the Room 2 to observe the monitor. By observing the monitor, users will update their beliefs about the position of their item.";

/// The rules in the mode where participants look at past snapshots.
pub const RULES_FINITE: &'static str = "In this game, you will play the role of a warehouse manager. The warehouse contains three rooms. Room 1 is used for storing items, with each item stored in a certain position inside the opaque locker. You are situated in the Room 2, which contains a monitor that allows you to see the content of the opaque locker located in the Room 1 through the camera inside the opaque locker. Due to malfunctions in the locker system, it randomly resets the positions of the items in the opaque locker from time to time. To ensure that each user retrieves their stored item correctly, when a user comes to retrieve an item, you are required to predict the position of the item the user believes (the user will always retrieve their item based on the position they last believed). You only need to tell the system which position inside the locker the user will go to retrieve their item and then the locker system will automatically swap the item at that location with the one belonging to the user. Additionally, Room 3 contains a screen which will randomly show a certain previous snapshot of the monitor located in Room 2. During the game, users may or may not enter the Room 3 to observe a certain snapshot of the monitor. By observing the snapshot, users will update their beliefs about the position of their item.";

/// How points are scored, in both modes.
pub const SCORING: &'static str = "If a user successfully retrieves their item, you score a point and the item is removed from the locker.\nIf a user retrieves the wrong item, the item is returned, the user contacts the system administrator to take the correct item, and you score no points.\n\nIndeed, this is a problematic locker system, but you are hoped to be an excellent warehouse manager!";

/// What the predictor must answer.
pub const INSTRUCTIONS: &'static str = "You should only answer the position of the item the user will go to retrieve their item (e.g. 0 for the 0th, 1 for the 1st, 2 for the 2nd...).\nFor example, if you think the user will go to position 0th to retrieve their item, you should only answer in single number '0'.\nPlease make your prediction:";

/// The decimal digit `d` (below 10).
pub open spec fn digit_char(d: nat) -> char {
    seq!['0', '1', '2', '3', '4', '5', '6', '7', '8', '9'][d as int]
}

/// `n` written in decimal, without leading zeros.
pub open spec fn decimal(n: nat) -> Seq<char>
    decreases n,
{
    if n < 10 {
        seq![digit_char(n)]
    } else {
        decimal(n / 10).push(digit_char(n % 10))
    }
}

/// The English ordinal suffix of `n`: 1st, 2nd, 3rd, 11th, 12th, 13th, 21st...
pub open spec fn ordinal_suffix(n: nat) -> Seq<char> {
    if n % 10 == 1 && n % 100 != 11 {
        "st"@
    } else if n % 10 == 2 && n % 100 != 12 {
        "nd"@
    } else if n % 10 == 3 && n % 100 != 13 {
        "rd"@
    } else {
        "th"@
    }
}

/// `n` as an English ordinal in digits.
pub open spec fn ordinal(n: nat) -> Seq<char> {
    decimal(n) + ordinal_suffix(n)
}

fn digit_str(d: usize) -> (r: &'static str)
    requires
        d < 10,
    ensures
        r@ == seq![digit_char(d as nat)],
{
    proof {
        reveal_strlit("0");
        reveal_strlit("1");
        reveal_strlit("2");
        reveal_strlit("3");
        reveal_strlit("4");
        reveal_strlit("5");
        reveal_strlit("6");
        reveal_strlit("7");
        reveal_strlit("8");
        reveal_strlit("9");
    }
    match d {
        0 => "0",
        1 => "1",
        2 => "2",
        3 => "3",
        4 => "4",
        5 => "5",
        6 => "6",
        7 => "7",
        8 => "8",
        _ => "9",
    }
}

/// Appends `n` in decimal.
fn push_decimal(s: &mut String, n: usize)
    ensures
        final(s)@ == old(s)@ + decimal(n as nat),
    decreases n,
{
    if n >= 10 {
        push_decimal(s, n / 10);
    }
    s.append(digit_str(n % 10));
    proof {
        if n >= 10 {
            assert(decimal(n as nat) == decimal((n / 10) as nat).push(digit_char((n % 10) as nat)));
        }
    }
}

/// Appends `n` as an ordinal.
fn push_ordinal(s: &mut String, n: usize)
    ensures
        final(s)@ == old(s)@ + ordinal(n as nat),
{
    push_decimal(s, n);
    let suffix = if n % 10 == 1 && n % 100 != 11 {
        "st"
    } else if n % 10 == 2 && n % 100 != 12 {
        "nd"
    } else if n % 10 == 3 && n % 100 != 13 {
        "rd"
    } else {
        "th"
    };
    s.append(suffix);
}

/// `num` as an English ordinal in digits: "1st", "2nd", "3rd", "4th", "11th", "21st".
pub fn to_ordinal(num: u32) -> (r: String)
    ensures
        r@ == ordinal(num as nat),
{
    let mut s = String::new();
    push_ordinal(&mut s, num as usize);
    s
}

/// The line that tells what slot `i` holds.
pub open spec fn slot_line(i: nat, slot: Option<Item>) -> Seq<char> {
    match slot {
        Some(item) => "The position "@ + ordinal(i) + " stores the item of User "@ + decimal(
            item.belongs_to as nat,
        ) + ".\n"@,
        None => "The position "@ + ordinal(i) + " is empty.\n"@,
    }
}

/// One line per slot, in order.
pub open spec fn slots_text(slots: Seq<Option<Item>>) -> Seq<char>
    decreases slots.len(),
{
    if slots.len() == 0 {
        Seq::empty()
    } else {
        slots_text(slots.drop_last()) + slot_line((slots.len() - 1) as nat, slots.last())
    }
}

/// The sentence that tells where a participant's item starts.
pub open spec fn position_line(p: (usize, usize)) -> Seq<char> {
    "User "@ + decimal(p.0 as nat) + " stores its item at the position "@ + ordinal(p.1 as nat)
        + " of the locker. "@
}

/// One sentence per participant, in order.
pub open spec fn positions_text(ps: Seq<(usize, usize)>) -> Seq<char>
    decreases ps.len(),
{
    if ps.len() == 0 {
        Seq::empty()
    } else {
        positions_text(ps.drop_last()) + position_line(ps.last())
    }
}

/// The rules of a mode.
pub open spec fn rules(mode: GameMode) -> Seq<char> {
    match mode {
        GameMode::Zero => RULES_ZERO@,
        GameMode::Finite => RULES_FINITE@,
    }
}

/// How an observation reads.
pub open spec fn observation_text(user: usize, back: Option<usize>) -> Seq<char> {
    match back {
        None => "User "@ + decimal(user as nat) + " walks into the Room 2 and leaves the room after observing the monitor.\n"@,
        Some(b) => "User "@ + decimal(user as nat) + " walks into the Room 3 and is observing the snapshot of the monitor...\n\nUser "@
            + decimal(user as nat) + if b == 1 {
            " observes the snapshot which depicts the last state of the monitor and leaves the room.\n"@
        } else {
            " observes the snapshot which depicts the "@ + ordinal(b as nat) + "-to-last state of the monitor and leaves the room.\n"@
        },
    }
}

/// How a verdict reads.
pub open spec fn verdict_text(user: usize, correct: bool, believed: usize, actual: usize) -> Seq<char> {
    if correct {
        "Your prediction is correct! Item in the position "@ + ordinal(believed as nat)
            + " is exchanged with the correct item in the position "@ + ordinal(actual as nat) + ". User "@
            + decimal(user as nat) + " successfully retrieved the item from the correct position. You score a point!\n"@
    } else {
        "Your prediction is wrong! The administrator is intervening... Item in the position "@ + ordinal(
            believed as nat,
        ) + " is exchanged with the correct item in the position "@ + ordinal(actual as nat) + ". User "@
            + decimal(user as nat) + " retrieved the item with the help of the administrator. You score no points.\n"@
    }
}

/// How a reset of the locker reads.
pub open spec fn reshuffled_text(slots: Seq<Option<Item>>) -> Seq<char> {
    "The locker is malfunctioning and randomly resetting the positions of the items in the locker...\nThe locker has returned to normal.\nFrom the monitor, you can see the content of the locker:\n"@
        + slots_text(slots) + "\n"@
}

/// How the locker after a retrieval reads.
pub open spec fn contents_text(slots: Seq<Option<Item>>) -> Seq<char> {
    "Now, from the monitor, you can see the content of the locker:\n"@ + slots_text(slots) + "\n"@
}

/// The text of a notice.
pub open spec fn notice_text(n: Notice) -> Seq<char> {
    match n {
        Notice::Introduction { mode, positions } => "Welcome to, "@ + GAME_NAME@ + "!\n\n"@ + rules(mode) + "\n\n"@
            + SCORING@ + "\n\n============\n\nGame Begins!\n\nThere are "@ + decimal(positions@.len())
            + " users. "@ + positions_text(positions@) + "\n\nNow they leave the room.\n"@,
        Notice::Reshuffled { items } => reshuffled_text(items@),
        Notice::Observation { user, back } => observation_text(user, back),
        Notice::Prompt { user } => "User "@ + decimal(user as nat) + " is coming to Room 1 to take his/her item...\n\n"@
            + INSTRUCTIONS@,
        Notice::Verdict { user, correct, believed, actual } => verdict_text(user, correct, believed, actual),
        Notice::Contents { items } => contents_text(items@),
        Notice::Summary { score, percent } => "Correct: "@ + decimal(score as nat) + "\nFinal score: "@ + decimal(
            percent as nat,
        ) + "\n\nGame Over!\nDo you want to play another turn?(Y/n)\n"@,
    }
}

/// The notices that wait for an answer: the prompt for a guess, and the
/// summary, which asks whether to play again.
pub open spec fn asks(n: Notice) -> bool {
    n is Prompt || n is Summary
}

/// Appends one line per slot.
fn push_slots(s: &mut String, items: &Vec<Option<Item>>)
    ensures
        final(s)@ == old(s)@ + slots_text(items@),
{
    let mut i: usize = 0;
    while i < items.len()
        invariant
            i <= items@.len(),
            s@ == old(s)@ + slots_text(items@.subrange(0, i as int)),
        decreases items@.len() - i,
    {
        let ghost before = s@;
        s.append("The position ");
        push_ordinal(s, i);
        match items[i] {
            Some(item) => {
                s.append(" stores the item of User ");
                push_decimal(s, item.belongs_to);
                s.append(".\n");
            },
            None => {
                s.append(" is empty.\n");
            },
        }
        proof {
            let next = items@.subrange(0, i + 1);
            assert(next.drop_last() =~= items@.subrange(0, i as int));
            assert(s@ =~= before + slot_line(i as nat, items@[i as int]));
            assert(s@ =~= old(s)@ + slots_text(next));
        }
        i = i + 1;
    }
    assert(items@.subrange(0, items@.len() as int) =~= items@);
}

/// Appends one sentence per participant.
fn push_positions(s: &mut String, ps: &Vec<(usize, usize)>)
    ensures
        final(s)@ == old(s)@ + positions_text(ps@),
{
    let mut i: usize = 0;
    while i < ps.len()
        invariant
            i <= ps@.len(),
            s@ == old(s)@ + positions_text(ps@.subrange(0, i as int)),
        decreases ps@.len() - i,
    {
        let ghost before = s@;
        let (id, slot) = ps[i];
        s.append("User ");
        push_decimal(s, id);
        s.append(" stores its item at the position ");
        push_ordinal(s, slot);
        s.append(" of the locker. ");
        proof {
            let next = ps@.subrange(0, i + 1);
            assert(next.drop_last() =~= ps@.subrange(0, i as int));
            assert(s@ =~= before + position_line(ps@[i as int]));
            assert(s@ =~= old(s)@ + positions_text(next));
        }
        i = i + 1;
    }
    assert(ps@.subrange(0, ps@.len() as int) =~= ps@);
}

impl Notice {
    /// The message that carries this notice to the predictor.
    pub fn to_data(&self) -> (r: Data)
        ensures
            r.require_input == asks(*self),
            r.content@ == notice_text(*self),
    {
        let mut s = String::new();
        match self {
            Notice::Introduction { mode, positions } => {
                s.append("Welcome to, ");
                s.append(GAME_NAME);
                s.append("!\n\n");
                match mode {
                    GameMode::Zero => s.append(RULES_ZERO),
                    GameMode::Finite => s.append(RULES_FINITE),
                }
                s.append("\n\n");
                s.append(SCORING);
                s.append("\n\n============\n\nGame Begins!\n\nThere are ");
                push_decimal(&mut s, positions.len());
                s.append(" users. ");
                push_positions(&mut s, positions);
                s.append("\n\nNow they leave the room.\n");
                Data::new(false, s)
            },
            Notice::Reshuffled { items } => {
                s.append(
                    "The locker is malfunctioning and randomly resetting the positions of the items in the locker...\nThe locker has returned to normal.\nFrom the monitor, you can see the content of the locker:\n",
                );
                push_slots(&mut s, items);
                s.append("\n");
                Data::new(false, s)
            },
            Notice::Observation { user, back } => {
                s.append("User ");
                push_decimal(&mut s, *user);
                match back {
                    None => {
                        s.append(" walks into the Room 2 and leaves the room after observing the monitor.\n");
                    },
                    Some(b) => {
                        s.append(" walks into the Room 3 and is observing the snapshot of the monitor...\n\nUser ");
                        push_decimal(&mut s, *user);
                        if *b == 1 {
                            s.append(
                                " observes the snapshot which depicts the last state of the monitor and leaves the room.\n",
                            );
                        } else {
                            s.append(" observes the snapshot which depicts the ");
                            push_ordinal(&mut s, *b);
                            s.append("-to-last state of the monitor and leaves the room.\n");
                        }
                    },
                }
                Data::new(false, s)
            },
            Notice::Prompt { user } => {
                s.append("User ");
                push_decimal(&mut s, *user);
                s.append(" is coming to Room 1 to take his/her item...\n\n");
                s.append(INSTRUCTIONS);
                Data::new(true, s)
            },
            Notice::Verdict { user, correct, believed, actual } => {
                if *correct {
                    s.append("Your prediction is correct! Item in the position ");
                } else {
                    s.append("Your prediction is wrong! The administrator is intervening... Item in the position ");
                }
                push_ordinal(&mut s, *believed);
                s.append(" is exchanged with the correct item in the position ");
                push_ordinal(&mut s, *actual);
                s.append(". User ");
                push_decimal(&mut s, *user);
                if *correct {
                    s.append(" successfully retrieved the item from the correct position. You score a point!\n");
                } else {
                    s.append(" retrieved the item with the help of the administrator. You score no points.\n");
                }
                Data::new(false, s)
            },
            Notice::Contents { items } => {
                s.append("Now, from the monitor, you can see the content of the locker:\n");
                push_slots(&mut s, items);
                s.append("\n");
                Data::new(false, s)
            },
            Notice::Summary { score, percent } => {
                s.append("Correct: ");
                push_decimal(&mut s, *score);
                s.append("\nFinal score: ");
                push_decimal(&mut s, *percent);
                s.append("\n\nGame Over!\nDo you want to play another turn?(Y/n)\n");
                Data::new(true, s)
            },
        }
    }
}

} // verus!
