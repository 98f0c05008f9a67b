use crate::order::str_eq;
use vstd::prelude::*;

verus! {

/// The decimal digit character for a value below ten.
pub open spec fn digit_char(d: int) -> char {
    if d == 0 {
        '0'
    } else if d == 1 {
        '1'
    } else if d == 2 {
        '2'
    } else if d == 3 {
        '3'
    } else if d == 4 {
        '4'
    } else if d == 5 {
        '5'
    } else if d == 6 {
        '6'
    } else if d == 7 {
        '7'
    } else if d == 8 {
        '8'
    } else {
        '9'
    }
}

/// The decimal rendering of a number, most significant digit first.
pub open spec fn dec_str(n: nat) -> Seq<char>
    decreases n,
{
    if n < 10 {
        seq![digit_char(n as int)]
    } else {
        dec_str(n / 10).push(digit_char((n % 10) as int))
    }
}

/// The divisor of the unit a size is shown in: the largest binary unit,
/// from bytes to terabytes, that keeps the shown value at least one.
pub open spec fn unit_divisor(size: u64) -> nat {
    if size < 1024 {
        1
    } else if size < 1048576 {
        1024
    } else if size < 1073741824 {
        1048576
    } else if size < 1099511627776 {
        1073741824
    } else {
        1099511627776
    }
}

/// The unit's suffix.
pub open spec fn unit_chars(size: u64) -> Seq<char> {
    if size < 1024 {
        seq!['B']
    } else if size < 1048576 {
        seq!['K', 'B']
    } else if size < 1073741824 {
        seq!['M', 'B']
    } else if size < 1099511627776 {
        seq!['G', 'B']
    } else {
        seq!['T', 'B']
    }
}

/// The size in hundredths of its unit, rounded half up.
pub open spec fn scaled_hundredths(size: u64) -> nat {
    ((size as nat) * 100 + unit_divisor(size) / 2) / unit_divisor(size)
}

/// What `format_size` renders: the value with two decimals, a space, and
/// the unit.
pub open spec fn format_size_spec(size: u64) -> Seq<char> {
    dec_str(scaled_hundredths(size) / 100) + seq![
        '.',
        digit_char(((scaled_hundredths(size) / 10) % 10) as int),
        digit_char((scaled_hundredths(size) % 10) as int),
    ] + seq![' '] + unit_chars(size)
}

/// One decimal digit as a string slice.
fn digit_str(d: u64) -> (r: &'static str)
    requires
        d < 10,
    ensures
        r@ == seq![digit_char(d as int)],
{
    proof {
        reveal_strlit("0");
        reveal_strlit("1");
        reveal_strlit("2");
        reveal_strlit("3");
        reveal_strlit("4");
        reveal_strlit("5");
        reveal_strlit("6");
        reveal_strlit("7");
        reveal_strlit("8");
        reveal_strlit("9");
    }
    match d {
        0 => "0",
        1 => "1",
        2 => "2",
        3 => "3",
        4 => "4",
        5 => "5",
        6 => "6",
        7 => "7",
        8 => "8",
        _ => "9",
    }
}

/// Appends a number's decimal rendering.
fn push_decimal(s: &mut String, n: u64)
    ensures
        final(s)@ == old(s)@ + dec_str(n as nat),
    decreases n,
{
    if n >= 10 {
        push_decimal(s, n / 10);
    }
    s.append(digit_str(n % 10));
    proof {
        if n >= 10 {
            assert(s@ =~= old(s)@ + dec_str((n / 10) as nat).push(digit_char((n % 10) as int)));
        } else {
            assert(s@ =~= old(s)@ + seq![digit_char(n as int)]);
        }
    }
}

/// Renders a byte count for people: two decimals of the largest binary
/// unit that keeps the value at least one, rounded half up.
pub fn format_size(size: u64) -> (r: String)
    ensures
        r@ == format_size_spec(size),
{
    proof {
        reveal_strlit(".");
        reveal_strlit(" ");
        reveal_strlit("B");
        reveal_strlit("KB");
        reveal_strlit("MB");
        reveal_strlit("GB");
        reveal_strlit("TB");
    }
    let div: u64 = if size < 1024 {
        1
    } else if size < 1048576 {
        1024
    } else if size < 1073741824 {
        1048576
    } else if size < 1099511627776 {
        1073741824
    } else {
        1099511627776
    };
    let unit: &str = if size < 1024 {
        "B"
    } else if size < 1048576 {
        "KB"
    } else if size < 1073741824 {
        "MB"
    } else if size < 1099511627776 {
        "GB"
    } else {
        "TB"
    };
    let scaled_wide: u128 = ((size as u128) * 100 + (div as u128) / 2) / (div as u128);
    proof {
        assert(div as nat == unit_divisor(size));
        assert(scaled_wide as nat == scaled_hundredths(size));
        assert(scaled_wide / 100 <= (size as u128) * 100 + (div as u128) / 2) by {
            vstd::arithmetic::div_mod::lemma_div_is_ordered_by_denominator(
                ((size as u128) * 100 + (div as u128) / 2) as int,
                1,
                div as int,
            );
            vstd::arithmetic::div_mod::lemma_div_is_ordered_by_denominator(
                ((size as u128) * 100 + (div as u128) / 2) as int,
                1,
                100,
            );
        }
    }
    let whole: u64 = (scaled_wide / 100) as u64;
    let tens: u64 = ((scaled_wide / 10) % 10) as u64;
    let ones: u64 = (scaled_wide % 10) as u64;
    let mut out = String::new();
    push_decimal(&mut out, whole);
    out.append(".");
    out.append(digit_str(tens));
    out.append(digit_str(ones));
    out.append(" ");
    out.append(unit);
    proof {
        assert(out@ =~= format_size_spec(size));
    }
    out
}

/// Whether a category token names a literal path rather than a known root.
pub open spec fn is_custom(s: Seq<char>) -> bool {
    s.len() >= 7 && s.subrange(0, 7) == "Custom:"@
}

/// The literal path a custom category token carries.
pub open spec fn custom_suffix(s: Seq<char>) -> Seq<char> {
    s.skip(7)
}

/// Relies on dirs_next::data_dir: the platform's per-user data directory,
/// if the platform reports one. The result depends on the environment, so
/// nothing more is promised.
#[verifier::external_body]
fn data_dir_string() -> Option<String> {
    dirs_next::data_dir().map(|p| p.to_string_lossy().into_owned())
}

/// Relies on dirs_next::cache_dir: the platform's per-user cache directory,
/// if the platform reports one. The result depends on the environment, so
/// nothing more is promised.
#[verifier::external_body]
fn cache_dir_string() -> Option<String> {
    dirs_next::cache_dir().map(|p| p.to_string_lossy().into_owned())
}

/// Resolves a category token to the directory it names: a custom token
/// carries its path literally, the known roots resolve through the
/// platform, and anything else resolves to nothing.
pub fn get_appdata_dir(folder_type: &str) -> (r: Option<String>)
    ensures
        is_custom(folder_type@) ==> (r matches Some(p) && p@ == custom_suffix(folder_type@)),
        !is_custom(folder_type@) && folder_type@ == "LocalLow"@ ==> (r matches Some(p) && p@
            == "C:/Users/Default/AppData/LocalLow"@),
        !is_custom(folder_type@) && folder_type@ != "Roaming"@ && folder_type@ != "Local"@
            && folder_type@ != "LocalLow"@ ==> r is None,
{
    proof {
        reveal_strlit("Roaming");
        reveal_strlit("Local");
        reveal_strlit("LocalLow");
    }
    let n = folder_type.unicode_len();
    if n >= 7 {
        let prefix = folder_type.substring_char(0, 7);
        if str_eq(prefix, "Custom:") {
            let suffix = folder_type.substring_char(7, n);
            proof {
                assert(suffix@ =~= custom_suffix(folder_type@));
            }
            return Some(suffix.to_owned());
        }
    }
    if str_eq(folder_type, "Roaming") {
        data_dir_string()
    } else if str_eq(folder_type, "Local") {
        cache_dir_string()
    } else if str_eq(folder_type, "LocalLow") {
        Some(String::from_str("C:/Users/Default/AppData/LocalLow"))
    } else {
        None
    }
}

} // verus!
