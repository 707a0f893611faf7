//! Narration lines appended to the message log, and the decimal rendering
//! they embed.

use vstd::prelude::*;
use vstd::string::StringExecFns;

verus! {

/// The decimal digits of a non-negative number, most significant first.
pub open spec fn dec_digits(v: int) -> Seq<char>
    decreases v,
{
    if v < 10 {
        seq![digit_char(v)]
    } else {
        dec_digits(v / 10) + seq![digit_char(v % 10)]
    }
}

/// The decimal rendering of a number, with a leading minus sign when
/// negative.
pub open spec fn dec_str(v: int) -> Seq<char> {
    if v < 0 {
        seq!['-'] + dec_digits(-v)
    } else {
        dec_digits(v)
    }
}

/// The digit character for a value below ten.
pub open spec fn digit_char(d: int) -> char {
    if d == 0 {
        '0'
    } else if d == 1 {
        '1'
    } else if d == 2 {
        '2'
    } else if d == 3 {
        '3'
    } else if d == 4 {
        '4'
    } else if d == 5 {
        '5'
    } else if d == 6 {
        '6'
    } else if d == 7 {
        '7'
    } else if d == 8 {
        '8'
    } else {
        '9'
    }
}

/// Append one digit character.
fn push_digit(s: &mut String, d: u32)
    requires
        d < 10,
    ensures
        final(s)@ == old(s)@ + seq![digit_char(d as int)],
{
    match d {
        0 => {
            s.append("0");
            proof {
                reveal_strlit("0");
                assert(s@ =~= old(s)@ + seq![digit_char(0)]);
            }
        },
        1 => {
            s.append("1");
            proof {
                reveal_strlit("1");
                assert(s@ =~= old(s)@ + seq![digit_char(1)]);
            }
        },
        2 => {
            s.append("2");
            proof {
                reveal_strlit("2");
                assert(s@ =~= old(s)@ + seq![digit_char(2)]);
            }
        },
        3 => {
            s.append("3");
            proof {
                reveal_strlit("3");
                assert(s@ =~= old(s)@ + seq![digit_char(3)]);
            }
        },
        4 => {
            s.append("4");
            proof {
                reveal_strlit("4");
                assert(s@ =~= old(s)@ + seq![digit_char(4)]);
            }
        },
        5 => {
            s.append("5");
            proof {
                reveal_strlit("5");
                assert(s@ =~= old(s)@ + seq![digit_char(5)]);
            }
        },
        6 => {
            s.append("6");
            proof {
                reveal_strlit("6");
                assert(s@ =~= old(s)@ + seq![digit_char(6)]);
            }
        },
        7 => {
            s.append("7");
            proof {
                reveal_strlit("7");
                assert(s@ =~= old(s)@ + seq![digit_char(7)]);
            }
        },
        8 => {
            s.append("8");
            proof {
                reveal_strlit("8");
                assert(s@ =~= old(s)@ + seq![digit_char(8)]);
            }
        },
        _ => {
            s.append("9");
            proof {
                reveal_strlit("9");
                assert(s@ =~= old(s)@ + seq![digit_char(9)]);
            }
        },
    }
}

/// Append the decimal digits of a non-negative number.
fn push_decimal(s: &mut String, x: u32)
    ensures
        final(s)@ == old(s)@ + dec_digits(x as int),
    decreases x,
{
    if x >= 10 {
        push_decimal(s, x / 10);
    }
    push_digit(s, x % 10);
    proof {
        assert(s@ =~= old(s)@ + dec_digits(x as int));
    }
}

/// Append the decimal rendering of a number.
pub fn append_decimal(s: &mut String, v: i32)
    ensures
        final(s)@ == old(s)@ + dec_str(v as int),
{
    if v >= 0 {
        push_decimal(s, v as u32);
    } else {
        s.append("-");
        let m: u32 = (-(v as i64)) as u32;
        push_decimal(s, m);
        proof {
            reveal_strlit("-");
            assert(s@ =~= old(s)@ + dec_str(v as int));
        }
    }
}

/// "You pick up the {name}."
pub open spec fn pickup_line(name: Seq<char>) -> Seq<char> {
    "You pick up the "@ + name + "."@
}

/// "You unequip {name}."
pub open spec fn unequip_line(name: Seq<char>) -> Seq<char> {
    "You unequip "@ + name + "."@
}

/// "You equip {name}."
pub open spec fn equip_line(name: Seq<char>) -> Seq<char> {
    "You equip "@ + name + "."@
}

/// "You use the {item}, healing {amount} hp"
pub open spec fn heal_line(item: Seq<char>, amount: int) -> Seq<char> {
    "You use the "@ + item + ", healing "@ + dec_str(amount) + " hp"@
}

/// "You use {item} on {target}, inflicting {damage} hp."
pub open spec fn damage_line(item: Seq<char>, target: Seq<char>, damage: int) -> Seq<char> {
    "You use "@ + item + " on "@ + target + ", inflicting "@ + dec_str(damage) + " hp."@
}

/// "You use {item} on {target}, confusing them."
pub open spec fn confusion_line(item: Seq<char>, target: Seq<char>) -> Seq<char> {
    "You use "@ + item + " on "@ + target + ", confusing them."@
}

/// The narration of a level transition.
pub open spec fn descend_line() -> Seq<char> {
    "You descend to the next level, and take a moment to heal."@
}

pub fn make_pickup_line(name: &String) -> (r: String)
    ensures
        r@ == pickup_line(name@),
{
    let mut s = String::new();
    s.append("You pick up the ");
    s.append(name.as_str());
    s.append(".");
    proof {
        assert(s@ =~= pickup_line(name@));
    }
    s
}

pub fn make_unequip_line(name: &String) -> (r: String)
    ensures
        r@ == unequip_line(name@),
{
    let mut s = String::new();
    s.append("You unequip ");
    s.append(name.as_str());
    s.append(".");
    proof {
        assert(s@ =~= unequip_line(name@));
    }
    s
}

pub fn make_equip_line(name: &String) -> (r: String)
    ensures
        r@ == equip_line(name@),
{
    let mut s = String::new();
    s.append("You equip ");
    s.append(name.as_str());
    s.append(".");
    proof {
        assert(s@ =~= equip_line(name@));
    }
    s
}

pub fn make_heal_line(item: &String, amount: i32) -> (r: String)
    ensures
        r@ == heal_line(item@, amount as int),
{
    let mut s = String::new();
    s.append("You use the ");
    s.append(item.as_str());
    s.append(", healing ");
    append_decimal(&mut s, amount);
    s.append(" hp");
    proof {
        assert(s@ =~= heal_line(item@, amount as int));
    }
    s
}

pub fn make_damage_line(item: &String, target: &String, damage: i32) -> (r: String)
    ensures
        r@ == damage_line(item@, target@, damage as int),
{
    let mut s = String::new();
    s.append("You use ");
    s.append(item.as_str());
    s.append(" on ");
    s.append(target.as_str());
    s.append(", inflicting ");
    append_decimal(&mut s, damage);
    s.append(" hp.");
    proof {
        assert(s@ =~= damage_line(item@, target@, damage as int));
    }
    s
}

pub fn make_confusion_line(item: &String, target: &String) -> (r: String)
    ensures
        r@ == confusion_line(item@, target@),
{
    let mut s = String::new();
    s.append("You use ");
    s.append(item.as_str());
    s.append(" on ");
    s.append(target.as_str());
    s.append(", confusing them.");
    proof {
        assert(s@ =~= confusion_line(item@, target@));
    }
    s
}

pub fn make_descend_line() -> (r: String)
    ensures
        r@ == descend_line(),
{
    let mut s = String::new();
    s.append("You descend to the next level, and take a moment to heal.");
    proof {
        assert(s@ =~= descend_line());
    }
    s
}

} // verus!
