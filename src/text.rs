//! Text building blocks: decimal numbers, human-friendly sizes, JSON string
//! escaping and file-name extensions.

use vstd::prelude::*;

verus! {

/// The decimal digit `d` (which is below ten) as a character.
pub open spec fn digit_char(d: nat) -> char {
    if d == 0 {
        '0'
    } else if d == 1 {
        '1'
    } else if d == 2 {
        '2'
    } else if d == 3 {
        '3'
    } else if d == 4 {
        '4'
    } else if d == 5 {
        '5'
    } else if d == 6 {
        '6'
    } else if d == 7 {
        '7'
    } else if d == 8 {
        '8'
    } else {
        '9'
    }
}

/// `n` written in decimal, without leading zeros.
pub open spec fn decimal(n: nat) -> Seq<char>
    decreases n,
{
    if n < 10 {
        seq![digit_char(n)]
    } else {
        decimal(n / 10).push(digit_char(n % 10))
    }
}

fn digit_str(d: u64) -> (r: &'static str)
    requires
        d < 10,
    ensures
        r@ == seq![digit_char(d as nat)],
{
    if d == 0 {
        proof { reveal_strlit("0"); }
        "0"
    } else if d == 1 {
        proof { reveal_strlit("1"); }
        "1"
    } else if d == 2 {
        proof { reveal_strlit("2"); }
        "2"
    } else if d == 3 {
        proof { reveal_strlit("3"); }
        "3"
    } else if d == 4 {
        proof { reveal_strlit("4"); }
        "4"
    } else if d == 5 {
        proof { reveal_strlit("5"); }
        "5"
    } else if d == 6 {
        proof { reveal_strlit("6"); }
        "6"
    } else if d == 7 {
        proof { reveal_strlit("7"); }
        "7"
    } else if d == 8 {
        proof { reveal_strlit("8"); }
        "8"
    } else {
        proof { reveal_strlit("9"); }
        "9"
    }
}

/// Writes `n` in decimal.
pub fn decimal_string(n: u64) -> (r: String)
    ensures
        r@ == decimal(n as nat),
    decreases n,
{
    if n < 10 {
        String::from_str(digit_str(n))
    } else {
        let mut s = decimal_string(n / 10);
        s.append(digit_str(n % 10));
        s
    }
}

/// One binary kilobyte.
pub const KIB: u64 = 1024;

/// A byte count in binary units, rounded down: the largest of KiB, MiB, GiB
/// and TiB in which the value is at least one, or plain bytes below 1024.
pub open spec fn friendly(n: nat) -> Seq<char> {
    let k: nat = 1024;
    if n < k {
        decimal(n) + " bytes"@
    } else if n / k < k {
        decimal(n / k) + " KiB"@
    } else if n / k / k < k {
        decimal(n / k / k) + " MiB"@
    } else if n / k / k / k < k {
        decimal(n / k / k / k) + " GiB"@
    } else {
        decimal(n / k / k / k / k) + " TiB"@
    }
}

/// Formats a byte count for people, as `friendly` describes.
pub fn friendly_bytes(bytes: u64) -> (r: String)
    ensures
        r@ == friendly(bytes as nat),
{
    if bytes < KIB {
        decimal_string(bytes).concat(" bytes")
    } else if bytes / KIB < KIB {
        decimal_string(bytes / KIB).concat(" KiB")
    } else if bytes / KIB / KIB < KIB {
        decimal_string(bytes / KIB / KIB).concat(" MiB")
    } else if bytes / KIB / KIB / KIB < KIB {
        decimal_string(bytes / KIB / KIB / KIB).concat(" GiB")
    } else {
        decimal_string(bytes / KIB / KIB / KIB / KIB).concat(" TiB")
    }
}

/// One character as it stands inside a JSON string literal: backslash and
/// double quote get a backslash in front, everything else is kept.
pub open spec fn escaped_char(c: char) -> Seq<char> {
    if c == '\\' {
        seq!['\\', '\\']
    } else if c == '"' {
        seq!['\\', '"']
    } else {
        seq![c]
    }
}

/// `s` with backslashes and double quotes escaped.
pub open spec fn escaped(s: Seq<char>) -> Seq<char>
    decreases s.len(),
{
    if s.len() == 0 {
        Seq::empty()
    } else {
        escaped(s.drop_last()) + escaped_char(s.last())
    }
}

/// Escapes backslashes and double quotes so that `s` can stand between the
/// quotes of a JSON string.
pub fn escape_json(s: &str) -> (r: String)
    ensures
        r@ == escaped(s@),
{
    let n = s.unicode_len();
    let mut out = String::new();
    let mut i: usize = 0;
    while i < n
        invariant
            n == s@.len(),
            i <= n,
            out@ == escaped(s@.subrange(0, i as int)),
        decreases n - i,
    {
        let c = s.get_char(i);
        let piece = s.substring_char(i, i + 1);
        assert(s@.subrange(0, i + 1).drop_last() =~= s@.subrange(0, i as int));
        if c == '\\' {
            proof { reveal_strlit("\\\\"); }
            out.append("\\\\");
        } else if c == '"' {
            proof { reveal_strlit("\\\""); }
            out.append("\\\"");
        } else {
            assert(piece@ =~= seq![c]);
            out.append(piece);
        }
        i = i + 1;
    }
    assert(s@.subrange(0, n as int) =~= s@);
    out
}

/// Where the last `.` of `name` stands, or -1 where it holds none.
pub open spec fn last_dot(name: Seq<char>) -> int
    decreases name.len(),
{
    if name.len() == 0 {
        -1
    } else if name.last() == '.' {
        name.len() - 1
    } else {
        last_dot(name.drop_last())
    }
}

/// The extension of a file name: what follows its last `.`, or nothing where
/// it holds no `.`.
pub open spec fn extension(name: Seq<char>) -> Seq<char> {
    let d = last_dot(name);
    if d < 0 {
        Seq::empty()
    } else {
        name.subrange(d + 1, name.len() as int)
    }
}

/// Computes the extension of a file name, as `extension` describes.
pub fn extension_of(name: &str) -> (r: String)
    ensures
        r@ == extension(name@),
{
    let n = name.unicode_len();
    let mut i: usize = n;
    assert(name@.subrange(0, n as int) =~= name@);
    while i > 0
        invariant
            n == name@.len(),
            i <= n,
            last_dot(name@) == last_dot(name@.subrange(0, i as int)),
        decreases i,
    {
        let c = name.get_char(i - 1);
        assert(name@.subrange(0, i as int).drop_last() =~= name@.subrange(0, i - 1));
        if c == '.' {
            return name.substring_char(i, n).to_owned();
        }
        i = i - 1;
    }
    String::new()
}

} // verus!
