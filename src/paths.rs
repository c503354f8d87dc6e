//! Layout of the download directories on disk.
use vstd::prelude::*;
use vstd::string::*;

verus! {

/// The character for a decimal digit.
pub open spec fn digit_char(d: nat) -> char {
    if d == 0 { '0' }
    else if d == 1 { '1' }
    else if d == 2 { '2' }
    else if d == 3 { '3' }
    else if d == 4 { '4' }
    else if d == 5 { '5' }
    else if d == 6 { '6' }
    else if d == 7 { '7' }
    else if d == 8 { '8' }
    else { '9' }
}

/// Decimal rendering of a natural number, without leading zeros.
pub open spec fn decimal(n: nat) -> Seq<char>
    decreases n,
{
    if n < 10 {
        seq![digit_char(n)]
    } else {
        decimal(n / 10) + seq![digit_char(n % 10)]
    }
}

/// Shared root under which every guild has its own download directory.
pub open spec fn temp_root_spec() -> Seq<char> {
    seq!['/', 't', 'm', 'p', '/', 'm', 'u', 's', 'i', 'c', '_', 'b', 'o', 't', '_', 'd', 'o', 'w',
        'n', 'l', 'o', 'a', 'd', 's']
}

/// Download directory of one guild.
pub open spec fn guild_dir_spec(guild_id: u64) -> Seq<char> {
    temp_root_spec() + seq!['/', 'g', 'u', 'i', 'l', 'd', '_'] + decimal(guild_id as nat)
}

fn digit_str(d: u64) -> (r: &'static str)
    requires
        d < 10,
    ensures
        r@ == seq![digit_char(d as nat)],
{
    proof {
        reveal_strlit("0");
        reveal_strlit("1");
        reveal_strlit("2");
        reveal_strlit("3");
        reveal_strlit("4");
        reveal_strlit("5");
        reveal_strlit("6");
        reveal_strlit("7");
        reveal_strlit("8");
        reveal_strlit("9");
    }
    let r: &'static str = if d == 0 { "0" }
    else if d == 1 { "1" }
    else if d == 2 { "2" }
    else if d == 3 { "3" }
    else if d == 4 { "4" }
    else if d == 5 { "5" }
    else if d == 6 { "6" }
    else if d == 7 { "7" }
    else if d == 8 { "8" }
    else { "9" };
    assert(r@ =~= seq![digit_char(d as nat)]);
    r
}

/// Appends the decimal rendering of `n` to `s`.
pub fn push_decimal(s: &mut String, n: u64)
    ensures
        final(s)@ == old(s)@ + decimal(n as nat),
    decreases n,
{
    if n >= 10 {
        push_decimal(s, n / 10);
    }
    s.append(digit_str(n % 10));
    proof {
        if n >= 10 {
            assert(decimal(n as nat) == decimal((n / 10) as nat) + seq![digit_char((n % 10) as nat)]);
        }
    }
    assert(final(s)@ =~= old(s)@ + decimal(n as nat));
}

/// The shared download root.
pub fn temp_root() -> (r: String)
    ensures
        r@ == temp_root_spec(),
{
    proof {
        reveal_strlit("/tmp/music_bot_downloads");
    }
    let r = String::from_str("/tmp/music_bot_downloads");
    assert(r@ =~= temp_root_spec());
    r
}

/// The download directory of `guild_id`: `<root>/guild_<decimal id>`.
pub fn get_guild_temp_dir(guild_id: u64) -> (r: String)
    ensures
        r@ == guild_dir_spec(guild_id),
{
    let mut r = temp_root();
    proof {
        reveal_strlit("/guild_");
    }
    r.append("/guild_");
    push_decimal(&mut r, guild_id);
    assert(r@ =~= guild_dir_spec(guild_id));
    r
}

} // verus!
