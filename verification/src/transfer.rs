//! Transfer direction and transfer type labels.
use vstd::prelude::*;
use crate::text::{
    decimal, digits_value, is_digit_char, lemma_decimal_digits, lemma_decimal_injective,
    lemma_decimal_reads_back, push_decimal,
};

verus! {

/// Transfer orbit direction.
#[derive(Debug, Clone, Copy, PartialEq, Eq, Structural)]
pub enum Direction {
    /// Prograde (short-way) transfer.
    Prograde,
    /// Retrograde (long-way) transfer.
    Retrograde,
}

/// The direction a sweep uses when its configuration names none.
pub fn default_direction() -> (d: Direction)
    ensures
        d == Direction::Prograde,
{
    Direction::Prograde
}

/// Transfer type classification (e.g. Type I prograde, Type II-R retrograde).
#[derive(Debug, Clone, Copy, PartialEq, Eq, Structural)]
pub struct TransferType {
    /// Numeric type (1 = I, 2 = II, etc.) based on half-revolutions of transfer angle.
    pub type_num: u32,
    /// Prograde or retrograde direction.
    pub direction: Direction,
}

/// The Roman numeral of the types 1 through 6.
pub open spec fn roman(n: int) -> Seq<char> {
    if n == 1 {
        seq!['I']
    } else if n == 2 {
        seq!['I', 'I']
    } else if n == 3 {
        seq!['I', 'I', 'I']
    } else if n == 4 {
        seq!['I', 'V']
    } else if n == 5 {
        seq!['V']
    } else {
        seq!['V', 'I']
    }
}

/// The label of a type number alone: a Roman numeral for 1 through 6,
/// the decimal number otherwise.
pub open spec fn type_numeral(type_num: u32) -> Seq<char> {
    if 1 <= type_num <= 6 {
        roman(type_num as int)
    } else {
        decimal(type_num as nat)
    }
}

/// The label of a transfer type: its numeral, followed by `-R` when retrograde.
pub open spec fn label_of(type_num: u32, direction: Direction) -> Seq<char> {
    match direction {
        Direction::Prograde => type_numeral(type_num),
        Direction::Retrograde => type_numeral(type_num) + seq!['-', 'R'],
    }
}

fn roman_str(n: u32) -> (s: &'static str)
    requires
        1 <= n <= 6,
    ensures
        s@ == roman(n as int),
{
    proof {
        reveal_strlit("I");
        reveal_strlit("II");
        reveal_strlit("III");
        reveal_strlit("IV");
        reveal_strlit("V");
        reveal_strlit("VI");
    }
    match n {
        1 => "I",
        2 => "II",
        3 => "III",
        4 => "IV",
        5 => "V",
        _ => "VI",
    }
}

/// Build a human-readable type label from the numeric type and direction.
///
/// Type I (0-180 deg), II (180-360 deg), III (360-540 deg), IV (540-720 deg).
/// Retrograde transfers get a "-R" suffix: "I-R", "II-R", etc.
pub fn type_label(type_num: u32, direction: Direction) -> (label: String)
    ensures
        label@ == label_of(type_num, direction),
{
    let mut label = String::new();
    if 1 <= type_num && type_num <= 6 {
        label.append(roman_str(type_num));
    } else {
        push_decimal(&mut label, type_num);
    }
    assert(label@ =~= type_numeral(type_num));
    match direction {
        Direction::Prograde => {},
        Direction::Retrograde => {
            proof {
                reveal_strlit("-R");
            }
            label.append("-R");
        },
    }
    label
}

impl TransferType {
    /// The label of this transfer type, as the CSV and summary outputs print it.
    pub fn to_string(&self) -> (label: String)
        ensures
            label@ == label_of(self.type_num, self.direction),
    {
        type_label(self.type_num, self.direction)
    }
}


/// A retrograde label is the prograde label of the same type followed by `-R`.
pub proof fn lemma_retrograde_label_adds_suffix(type_num: u32)
    ensures
        label_of(type_num, Direction::Retrograde) == label_of(type_num, Direction::Prograde)
            + seq!['-', 'R'],
{
}

proof fn lemma_numeral_shape(type_num: u32)
    ensures
        type_numeral(type_num).len() >= 1,
        type_numeral(type_num).last() != 'R',
        1 <= type_num <= 6 ==> (type_numeral(type_num)[0] == 'I' || type_numeral(type_num)[0]
            == 'V'),
        !(1 <= type_num <= 6) ==> is_digit_char(type_numeral(type_num)[0]),
{
    lemma_decimal_digits(type_num as nat);
    if !(1 <= type_num <= 6) {
        let d = decimal(type_num as nat);
        assert(is_digit_char(d[d.len() - 1]));
    }
}

proof fn lemma_numeral_injective(a: u32, b: u32)
    requires
        type_numeral(a) == type_numeral(b),
    ensures
        a == b,
{
    lemma_numeral_shape(a);
    lemma_numeral_shape(b);
    if 1 <= a <= 6 && 1 <= b <= 6 {
        assert(roman(a as int) == roman(b as int));
        if a != b {
            assert(roman(a as int).len() != roman(b as int).len() || roman(a as int)[0] != roman(
                b as int,
            )[0] || roman(a as int)[1] != roman(b as int)[1]);
        }
    } else if !(1 <= a <= 6) && !(1 <= b <= 6) {
        lemma_decimal_injective(a as nat, b as nat);
    }
}

/// Labels identify transfer types: two transfer types with the same label
/// have the same type number and direction.
pub proof fn lemma_labels_identify_types(a: TransferType, b: TransferType)
    requires
        label_of(a.type_num, a.direction) == label_of(b.type_num, b.direction),
    ensures
        a == b,
{
    lemma_numeral_shape(a.type_num);
    lemma_numeral_shape(b.type_num);
    let na = type_numeral(a.type_num);
    let nb = type_numeral(b.type_num);
    let suffix = seq!['-', 'R'];
    match (a.direction, b.direction) {
        (Direction::Prograde, Direction::Prograde) => {
            lemma_numeral_injective(a.type_num, b.type_num);
        },
        (Direction::Retrograde, Direction::Retrograde) => {
            assert((na + suffix).len() == (nb + suffix).len());
            assert(na =~= (na + suffix).subrange(0, na.len() as int));
            assert(nb =~= (nb + suffix).subrange(0, nb.len() as int));
            lemma_numeral_injective(a.type_num, b.type_num);
        },
        (Direction::Prograde, Direction::Retrograde) => {
            assert(na.last() == (nb + suffix).last());
        },
        (Direction::Retrograde, Direction::Prograde) => {
            assert((na + suffix).last() == nb.last());
        },
    }
}

/// The type number that a numeral reads as: a Roman numeral from I to VI,
/// or else a decimal number.
pub open spec fn numeral_value(s: Seq<char>) -> int {
    if s == roman(1) {
        1
    } else if s == roman(2) {
        2
    } else if s == roman(3) {
        3
    } else if s == roman(4) {
        4
    } else if s == roman(5) {
        5
    } else if s == roman(6) {
        6
    } else {
        digits_value(s) as int
    }
}

/// How a label reads back: an optional `-R` suffix marks a retrograde
/// transfer, and what comes before it is the numeral of the type.
pub open spec fn read_label(s: Seq<char>) -> (int, Direction) {
    if s.len() >= 2 && s[s.len() - 2] == '-' && s[s.len() - 1] == 'R' {
        (numeral_value(s.subrange(0, s.len() - 2)), Direction::Retrograde)
    } else {
        (numeral_value(s), Direction::Prograde)
    }
}

proof fn lemma_numeral_reads_back(type_num: u32)
    ensures
        numeral_value(type_numeral(type_num)) == type_num,
{
    lemma_numeral_shape(type_num);
    if 1 <= type_num <= 6 {
        assert(roman(1) =~= seq!['I']);
        assert(roman(2) =~= seq!['I', 'I']);
        assert(roman(3) =~= seq!['I', 'I', 'I']);
        assert(roman(4) =~= seq!['I', 'V']);
        assert(roman(5) =~= seq!['V']);
        assert(roman(6) =~= seq!['V', 'I']);
        assert(roman(2)[1] != roman(4)[1] && roman(1)[0] != roman(5)[0] && roman(2)[0] != roman(6)[0]
            && roman(4)[0] != roman(6)[0]);
        assert(roman(2) != roman(1) && roman(3) != roman(1) && roman(3) != roman(2));
        assert(roman(4) != roman(1) && roman(4) != roman(2) && roman(4) != roman(3));
        assert(roman(5) != roman(1) && roman(5) != roman(2) && roman(5) != roman(3) && roman(5) != roman(4));
        assert(roman(6) != roman(1) && roman(6) != roman(2) && roman(6) != roman(3) && roman(6) != roman(4)
            && roman(6) != roman(5));
    } else {
        let d = type_numeral(type_num);
        assert forall|k: int| 1 <= k <= 6 implies d != roman(k) by {
            assert(roman(k)[0] == 'I' || roman(k)[0] == 'V');
        }
        lemma_decimal_reads_back(type_num as nat);
    }
}

/// Reading a label back gives its transfer type: the numeral is read as
/// its type number, and the `-R` suffix appears exactly on retrograde labels.
pub proof fn lemma_label_reads_back(type_num: u32, direction: Direction)
    ensures
        read_label(label_of(type_num, direction)) == (type_num as int, direction),
{
    lemma_numeral_shape(type_num);
    lemma_numeral_reads_back(type_num);
    let n = type_numeral(type_num);
    match direction {
        Direction::Prograde => {
            assert(n[n.len() - 1] != 'R');
        },
        Direction::Retrograde => {
            let l = n + seq!['-', 'R'];
            assert(l.subrange(0, l.len() - 2) =~= n);
        },
    }
}

} // verus!
