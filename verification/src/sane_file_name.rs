//! The filename-safety predicate used before any asset file is read or
//! written: it rejects empty names, path separators and wildcards, control
//! characters, names ending in a space or a dot, and reserved device names.

use vstd::prelude::*;

verus! {

/// A character that must not appear anywhere in a file name: path
/// separators, wildcards, quoting, or a control character.
pub open spec fn dodgy_char(c: char) -> bool {
    (c as u32) < 32 || c == '/' || c == '\\' || c == '|' || c == '?' || c == '*' || c == '<' || c
        == '>' || c == ':' || c == '"'
}

/// Case-insensitive match of one character against a letter given in both
/// cases.
pub open spec fn ci(c: char, up: char, lo: char) -> bool {
    c == up || c == lo
}

/// The name matches, ignoring case, one of the reserved device names:
/// the four fixed three-letter names, or a serial/printer port name with a
/// digit 1 to 9.
pub open spec fn is_reserved_name(s: Seq<char>) -> bool {
    (s.len() == 3 && ((ci(s[0], 'C', 'c') && ci(s[1], 'O', 'o') && ci(s[2], 'N', 'n')) || (ci(
        s[0],
        'P',
        'p',
    ) && ci(s[1], 'R', 'r') && ci(s[2], 'N', 'n')) || (ci(s[0], 'A', 'a') && ci(s[1], 'U', 'u')
        && ci(s[2], 'X', 'x')) || (ci(s[0], 'N', 'n') && ci(s[1], 'U', 'u') && ci(s[2], 'L', 'l'))))
        || (s.len() == 4 && ((ci(s[0], 'C', 'c') && ci(s[1], 'O', 'o') && ci(s[2], 'M', 'm')) || (ci(
        s[0],
        'L',
        'l',
    ) && ci(s[1], 'P', 'p') && ci(s[2], 'T', 't'))) && '1' <= s[3] && s[3] <= '9')
}

/// A sane file name: non-empty, free of dodgy characters, not ending in a
/// space or a dot, and not a reserved device name.
pub open spec fn sane_spec(s: Seq<char>) -> bool {
    s.len() >= 1 && (forall|i: int| 0 <= i < s.len() ==> !dodgy_char(#[trigger] s[i])) && s[s.len()
        - 1] != ' ' && s[s.len() - 1] != '.' && !is_reserved_name(s)
}

/// Whether `fname` is safe to use as a file name.
pub fn sane_file_name(fname: &str) -> (r: bool)
    ensures
        r == sane_spec(fname@),
{
    let n = fname.unicode_len();
    if n < 1 {
        return false;
    }
    let mut i: usize = 0;
    while i < n
        invariant
            i <= n,
            n == fname@.len(),
            forall|j: int| 0 <= j < i ==> !dodgy_char(#[trigger] fname@[j]),
        decreases n - i,
    {
        let c = fname.get_char(i);
        if (c as u32) < 32 || c == '/' || c == '\\' || c == '|' || c == '?' || c == '*' || c == '<'
            || c == '>' || c == ':' || c == '"' {
            return false;
        }
        i = i + 1;
    }
    let last = fname.get_char(n - 1);
    if last == ' ' || last == '.' {
        return false;
    }
    if n == 3 {
        let c0 = fname.get_char(0);
        let c1 = fname.get_char(1);
        let c2 = fname.get_char(2);
        if ((c0 == 'C' || c0 == 'c') && (c1 == 'O' || c1 == 'o') && (c2 == 'N' || c2 == 'n')) || ((
        c0 == 'P' || c0 == 'p') && (c1 == 'R' || c1 == 'r') && (c2 == 'N' || c2 == 'n')) || ((c0
            == 'A' || c0 == 'a') && (c1 == 'U' || c1 == 'u') && (c2 == 'X' || c2 == 'x')) || ((c0
            == 'N' || c0 == 'n') && (c1 == 'U' || c1 == 'u') && (c2 == 'L' || c2 == 'l')) {
            return false;
        }
    }
    if n == 4 {
        let c0 = fname.get_char(0);
        let c1 = fname.get_char(1);
        let c2 = fname.get_char(2);
        let c3 = fname.get_char(3);
        if (((c0 == 'C' || c0 == 'c') && (c1 == 'O' || c1 == 'o') && (c2 == 'M' || c2 == 'm')) || ((
        c0 == 'L' || c0 == 'l') && (c1 == 'P' || c1 == 'p') && (c2 == 'T' || c2 == 't'))) && '1'
            <= c3 && c3 <= '9' {
            return false;
        }
    }
    true
}

} // verus!
