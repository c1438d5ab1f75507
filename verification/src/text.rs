use vstd::prelude::*;
use vstd::string::StringExecFns;

verus! {

/// The character of a decimal digit.
pub open spec fn digit(d: int) -> char {
    if d == 0 {
        '0'
    } else if d == 1 {
        '1'
    } else if d == 2 {
        '2'
    } else if d == 3 {
        '3'
    } else if d == 4 {
        '4'
    } else if d == 5 {
        '5'
    } else if d == 6 {
        '6'
    } else if d == 7 {
        '7'
    } else if d == 8 {
        '8'
    } else {
        '9'
    }
}

/// The decimal digits of a natural number, without leading zeros.
pub open spec fn digits(n: nat) -> Seq<char>
    decreases n,
{
    if n < 10 {
        seq![digit(n as int)]
    } else {
        digits(n / 10).push(digit((n % 10) as int))
    }
}

/// The decimal text of an integer: a minus sign before the digits of a
/// negative one.
pub open spec fn decimal(n: int) -> Seq<char> {
    if n < 0 {
        seq!['-'] + digits((-n) as nat)
    } else {
        digits(n as nat)
    }
}

/// The English name of a month, `"Unknown"` for a number that is no month.
pub open spec fn month_name(month: int) -> Seq<char> {
    if month == 1 {
        "January"@
    } else if month == 2 {
        "February"@
    } else if month == 3 {
        "March"@
    } else if month == 4 {
        "April"@
    } else if month == 5 {
        "May"@
    } else if month == 6 {
        "June"@
    } else if month == 7 {
        "July"@
    } else if month == 8 {
        "August"@
    } else if month == 9 {
        "September"@
    } else if month == 10 {
        "October"@
    } else if month == 11 {
        "November"@
    } else if month == 12 {
        "December"@
    } else {
        "Unknown"@
    }
}

fn digit_text(d: u64) -> (text: &'static str)
    requires
        d < 10,
    ensures
        text@ == seq![digit(d as int)],
{
    proof {
        reveal_strlit("0");
        reveal_strlit("1");
        reveal_strlit("2");
        reveal_strlit("3");
        reveal_strlit("4");
        reveal_strlit("5");
        reveal_strlit("6");
        reveal_strlit("7");
        reveal_strlit("8");
        reveal_strlit("9");
    }
    let text = match d {
        0 => "0",
        1 => "1",
        2 => "2",
        3 => "3",
        4 => "4",
        5 => "5",
        6 => "6",
        7 => "7",
        8 => "8",
        _ => "9",
    };
    assert(text@ =~= seq![digit(d as int)]);
    text
}

/// Writes a number in decimal.
pub fn unsigned_text(n: u64) -> (text: String)
    ensures
        text@ == digits(n as nat),
    decreases n,
{
    if n < 10 {
        String::from_str(digit_text(n))
    } else {
        let mut text = unsigned_text(n / 10);
        text.append(digit_text(n % 10));
        text
    }
}

/// Writes a year in decimal, with a minus sign where it is negative.
pub fn year_text(year: i32) -> (text: String)
    ensures
        text@ == decimal(year as int),
{
    if year < 0 {
        let magnitude: u64 = (-(year as i64)) as u64;
        let mut text = String::from_str("-");
        proof {
            reveal_strlit("-");
        }
        let number = unsigned_text(magnitude);
        text.append(number.as_str());
        assert(text@ =~= seq!['-'] + digits((-year) as nat));
        text
    } else {
        unsigned_text(year as u64)
    }
}

/// The name of the directory that holds a month's files.
pub fn get_month(month: &u32) -> (name: String)
    ensures
        name@ == month_name(*month as int),
{
    match month {
        1 => String::from_str("January"),
        2 => String::from_str("February"),
        3 => String::from_str("March"),
        4 => String::from_str("April"),
        5 => String::from_str("May"),
        6 => String::from_str("June"),
        7 => String::from_str("July"),
        8 => String::from_str("August"),
        9 => String::from_str("September"),
        10 => String::from_str("October"),
        11 => String::from_str("November"),
        12 => String::from_str("December"),
        _ => String::from_str("Unknown"),
    }
}

} // verus!
