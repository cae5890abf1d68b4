use vstd::prelude::*;

verus! {

/// The Chinese numeral for a number from 1 to 9.
pub open spec fn chinese_digit(v: u8) -> char {
    match v {
        1 => '一',
        2 => '二',
        3 => '三',
        4 => '四',
        5 => '五',
        6 => '六',
        7 => '七',
        8 => '八',
        9 => '九',
        _ => '零',
    }
}

/// Converts a value to a Chinese character.
pub trait HasChineseValue {
    /// Whether the value has a Chinese numeral in the tile set.
    spec fn has_chinese_value(&self) -> bool;

    /// The Chinese numeral of the value.
    spec fn spec_chinese_value(&self) -> char;

    /// Get the Chinese character for this value.
    fn chinese_value(&self) -> (r: char)
        requires
            self.has_chinese_value(),
        ensures
            r == self.spec_chinese_value(),
    ;
}

impl HasChineseValue for u8 {
    open spec fn has_chinese_value(&self) -> bool {
        1 <= *self <= 9
    }

    open spec fn spec_chinese_value(&self) -> char {
        chinese_digit(*self)
    }

    fn chinese_value(&self) -> (r: char) {
        match *self {
            1 => '一',
            2 => '二',
            3 => '三',
            4 => '四',
            5 => '五',
            6 => '六',
            7 => '七',
            8 => '八',
            _ => '九',
        }
    }
}

/// The Chinese numeral of a number from 1 to 9, as a string.
pub fn chinese_digit_str(v: u8) -> (r: &'static str)
    requires
        1 <= v <= 9,
    ensures
        r@ == seq![chinese_digit(v)],
{
    match v {
        1 => {
            proof { reveal_strlit("一"); }
            "一"
        },
        2 => {
            proof { reveal_strlit("二"); }
            "二"
        },
        3 => {
            proof { reveal_strlit("三"); }
            "三"
        },
        4 => {
            proof { reveal_strlit("四"); }
            "四"
        },
        5 => {
            proof { reveal_strlit("五"); }
            "五"
        },
        6 => {
            proof { reveal_strlit("六"); }
            "六"
        },
        7 => {
            proof { reveal_strlit("七"); }
            "七"
        },
        8 => {
            proof { reveal_strlit("八"); }
            "八"
        },
        _ => {
            proof { reveal_strlit("九"); }
            "九"
        },
    }
}

/// The ASCII digit of a number from 1 to 9.
pub open spec fn ascii_digit(v: u8) -> char {
    match v {
        1 => '1',
        2 => '2',
        3 => '3',
        4 => '4',
        5 => '5',
        6 => '6',
        7 => '7',
        8 => '8',
        9 => '9',
        _ => '0',
    }
}

/// The ASCII digit of a number from 1 to 9, as a string.
pub fn ascii_digit_str(v: u8) -> (r: &'static str)
    requires
        1 <= v <= 9,
    ensures
        r@ == seq![ascii_digit(v)],
{
    match v {
        1 => {
            proof { reveal_strlit("1"); }
            "1"
        },
        2 => {
            proof { reveal_strlit("2"); }
            "2"
        },
        3 => {
            proof { reveal_strlit("3"); }
            "3"
        },
        4 => {
            proof { reveal_strlit("4"); }
            "4"
        },
        5 => {
            proof { reveal_strlit("5"); }
            "5"
        },
        6 => {
            proof { reveal_strlit("6"); }
            "6"
        },
        7 => {
            proof { reveal_strlit("7"); }
            "7"
        },
        8 => {
            proof { reveal_strlit("8"); }
            "8"
        },
        _ => {
            proof { reveal_strlit("9"); }
            "9"
        },
    }
}

} // verus!
