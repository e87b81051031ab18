//! Episode catalog helpers: decimal formatting, the rename-target filename,
//! the description lines shown when the user picks a show, a season or an
//! episode, and the generic result-list wrapper of the metadata provider.

use vstd::prelude::*;

use crate::matching::Episode;
use crate::text::chars_to_string;

verus! {

/// The character for one decimal digit.
pub open spec fn digit_char(d: nat) -> char {
    if d == 0 {
        '0'
    } else if d == 1 {
        '1'
    } else if d == 2 {
        '2'
    } else if d == 3 {
        '3'
    } else if d == 4 {
        '4'
    } else if d == 5 {
        '5'
    } else if d == 6 {
        '6'
    } else if d == 7 {
        '7'
    } else if d == 8 {
        '8'
    } else {
        '9'
    }
}

/// The decimal digits of `n`, most significant first, without leading zeros
/// (a single `0` for zero).
pub open spec fn dec_digits(n: nat) -> Seq<char>
    decreases n,
    via dec_digits_dec
{
    if n < 10 {
        seq![digit_char(n)]
    } else {
        dec_digits(n / 10) + seq![digit_char(n % 10)]
    }
}

#[via_fn]
proof fn dec_digits_dec(n: nat) {
    assert(n >= 10 ==> n / 10 < n) by (nonlinear_arith);
}

/// The decimal digits of `n`, zero-padded on the left to at least two
/// places, as in season and episode numbers.
pub open spec fn pad2(n: nat) -> Seq<char> {
    if n < 10 {
        seq!['0'] + dec_digits(n)
    } else {
        dec_digits(n)
    }
}

/// The character for one decimal digit.
fn digit_char_exec(d: u32) -> (c: char)
    requires
        d < 10,
    ensures
        c == digit_char(d as nat),
{
    if d == 0 {
        '0'
    } else if d == 1 {
        '1'
    } else if d == 2 {
        '2'
    } else if d == 3 {
        '3'
    } else if d == 4 {
        '4'
    } else if d == 5 {
        '5'
    } else if d == 6 {
        '6'
    } else if d == 7 {
        '7'
    } else if d == 8 {
        '8'
    } else {
        '9'
    }
}

/// Appends the decimal digits of `n` to `out`.
fn push_dec_digits(out: &mut Vec<char>, n: u32)
    ensures
        final(out)@ == old(out)@ + dec_digits(n as nat),
    decreases n,
{
    if n >= 10 {
        proof {
            assert(n / 10 < n) by (nonlinear_arith)
                requires
                    n >= 10,
            ;
        }
        push_dec_digits(out, n / 10);
    }
    out.push(digit_char_exec(n % 10));
    proof {
        if n < 10 {
            assert(out@ =~= old(out)@ + dec_digits(n as nat));
        } else {
            assert(out@ =~= old(out)@ + (dec_digits(n as nat / 10) + seq![
                digit_char(n as nat % 10),
            ]));
        }
    }
}

/// The decimal digits of `n` as a string.
pub fn format_u32(n: u32) -> (r: String)
    ensures
        r@ == dec_digits(n as nat),
{
    let mut v: Vec<char> = Vec::new();
    push_dec_digits(&mut v, n);
    proof {
        assert(v@ =~= dec_digits(n as nat));
    }
    chars_to_string(&v)
}

/// The decimal digits of `n`, zero-padded to at least two places, as a
/// string.
pub fn format_u32_pad2(n: u32) -> (r: String)
    ensures
        r@ == pad2(n as nat),
{
    let mut v: Vec<char> = Vec::new();
    if n < 10 {
        v.push('0');
    }
    push_dec_digits(&mut v, n);
    proof {
        assert(v@ =~= pad2(n as nat));
    }
    chars_to_string(&v)
}

/// The filename an episode's video file is renamed to once matched.
pub open spec fn filename_spec(e: Episode) -> Seq<char> {
    "S"@ + pad2(e.season_number as nat) + "E"@ + pad2(e.episode_number as nat) + " - "@ + e.name@
        + ".mkv"@
}

/// Formats the rename target for a matched episode, in the pattern
/// `S{season:02}E{episode:02} - {title}.mkv`.
pub fn format_filename(episode: &Episode) -> (r: String)
    ensures
        r@ == filename_spec(*episode),
{
    let mut r = String::new();
    r.append("S");
    let season = format_u32_pad2(episode.season_number);
    r.append(season.as_str());
    r.append("E");
    let number = format_u32_pad2(episode.episode_number);
    r.append(number.as_str());
    r.append(" - ");
    r.append(episode.name.as_str());
    r.append(".mkv");
    proof {
        assert(r@ =~= filename_spec(*episode));
    }
    r
}

/// The menu line for one episode of a season listing.
pub open spec fn episode_line_spec(e: Episode) -> Seq<char> {
    "Episode "@ + dec_digits(e.episode_number as nat) + " - "@ + e.name@
}

/// Formats the menu line for one episode: `Episode {number} - {name}`.
pub fn describe_episode(episode: &Episode) -> (r: String)
    ensures
        r@ == episode_line_spec(*episode),
{
    let mut r = String::new();
    r.append("Episode ");
    let number = format_u32(episode.episode_number);
    r.append(number.as_str());
    r.append(" - ");
    r.append(episode.name.as_str());
    proof {
        assert(r@ =~= episode_line_spec(*episode));
    }
    r
}

/// The menu line for one season of a show listing.
pub open spec fn season_line_spec(name: Seq<char>, episode_count: nat) -> Seq<char> {
    name + " ("@ + dec_digits(episode_count) + " episodes)"@
}

/// Formats the menu line for one season: `{name} ({count} episodes)`.
pub fn describe_season(name: &str, episode_count: u32) -> (r: String)
    ensures
        r@ == season_line_spec(name@, episode_count as nat),
{
    let mut r = String::new();
    r.append(name);
    r.append(" (");
    let count = format_u32(episode_count);
    r.append(count.as_str());
    r.append(" episodes)");
    proof {
        assert(r@ =~= season_line_spec(name@, episode_count as nat));
    }
    r
}

/// The menu line for one search result: `{id}: {name}`, with the first air
/// date appended in parentheses when it is known.
pub open spec fn search_line_spec(id: nat, name: Seq<char>, date: Option<Seq<char>>) -> Seq<char> {
    match date {
        Some(d) => dec_digits(id) + ": "@ + name + " ("@ + d + ")"@,
        None => dec_digits(id) + ": "@ + name,
    }
}

/// Formats the menu line for one show search result.
pub fn describe_search_result(id: u32, name: &str, first_air_date: Option<&str>) -> (r: String)
    ensures
        ({
            let date = match first_air_date {
                Some(d) => Some(d@),
                None => None,
            };
            r@ == search_line_spec(id as nat, name@, date)
        }),
{
    let mut r = format_u32(id);
    r.append(": ");
    r.append(name);
    match first_air_date {
        Some(d) => {
            r.append(" (");
            r.append(d);
            r.append(")");
            proof {
                assert(r@ =~= search_line_spec(id as nat, name@, Some(d@)));
            }
        },
        None => {
            proof {
                assert(r@ =~= search_line_spec(id as nat, name@, None::<Seq<char>>));
            }
        },
    }
    r
}

/// A page of results from the metadata provider.
pub struct Results<T> {
    results: Vec<T>,
}

impl<T> View for Results<T> {
    type V = Seq<T>;

    closed spec fn view(&self) -> Seq<T> {
        self.results@
    }
}

impl<T> Results<T> {
    /// Wraps a list of results.
    pub fn new(results: Vec<T>) -> (r: Results<T>)
        ensures
            r@ == results@,
    {
        Results { results }
    }

    /// The results, in order.
    pub fn results(&self) -> (r: &Vec<T>)
        ensures
            r@ == self@,
    {
        &self.results
    }
}

} // verus!
