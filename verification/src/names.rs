//! Recognising CSV file names: a name whose extension equals "csv",
//! compared without regard to ASCII case.

use vstd::prelude::*;

verus! {

/// Lower-cases one ASCII letter; any other byte is unchanged.
pub open spec fn ascii_lower(b: u8) -> u8 {
    if 65 <= b <= 90 {
        (b + 32) as u8
    } else {
        b
    }
}

/// True when the file name has an extension and it is "csv" in any ASCII
/// case. The extension is what follows the last dot; a dot in first
/// position starts a hidden file, not an extension. Since none of `c`,
/// `s`, `v` is a dot, the name qualifies exactly when its last four bytes
/// are a dot and then the three letters.
pub open spec fn is_csv_name(name: Seq<u8>) -> bool {
    &&& name.len() >= 5
    &&& name[name.len() - 4] == 46
    &&& ascii_lower(name[name.len() - 3]) == 99
    &&& ascii_lower(name[name.len() - 2]) == 115
    &&& ascii_lower(name[name.len() - 1]) == 118
}

/// True when the file name (its last path component) ends in a ".csv"
/// extension, matched case-insensitively.
pub fn is_csv(name: &Vec<u8>) -> (r: bool)
    ensures
        r == is_csv_name(name@),
{
    if name.len() < 5 {
        return false;
    }
    let n = name.len();
    let dot = name[n - 4] == 46;
    let c = lower_byte(name[n - 3]) == 99;
    let s = lower_byte(name[n - 2]) == 115;
    let v = lower_byte(name[n - 1]) == 118;
    dot && c && s && v
}

/// Lower-cases one ASCII letter in executable code.
fn lower_byte(b: u8) -> (r: u8)
    ensures
        r == ascii_lower(b),
{
    if 65 <= b && b <= 90 {
        b + 32
    } else {
        b
    }
}

} // verus!
