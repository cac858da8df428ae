//! Small conversions used while building rows and progress messages.

use vstd::prelude::*;

use crate::queries::scalars::StartggId;
use crate::text::{int_decimal, i64_to_string, join, join_strs, split_char, split_str, trim, trim_str};

verus! {

/// The text that chrono's `DateTime::<Utc>::format(fmt)` renders for the
/// instant `secs` seconds after 1970-01-01T00:00:00Z.
pub uninterp spec fn chrono_utc_format(secs: i64, fmt: Seq<char>) -> Seq<char>;

/// The seconds that chrono's `DateTime<Utc>` can represent: from the first
/// second of year -262143 to the last second of year 262142.
pub open spec fn chrono_utc_in_range(secs: int) -> bool {
    -8334601228800 <= secs <= 8210266876799
}

/// `%Y-%m-%d`
pub open spec fn date_pattern() -> Seq<char> {
    seq!['%', 'Y', '-', '%', 'm', '-', '%', 'd']
}

/// chrono's `DateTime::from_timestamp(secs, 0)` rendered with
/// `DateTime::format(fmt)`. Claims: `Some` exactly when chrono's range holds
/// `secs` (as its source computes it), and then the text that chrono
/// renders, named by `chrono_utc_format`. Only the date pattern is passed:
/// chrono's `Display` fails, and `to_string` panics, on invalid patterns.
#[verifier::external_body]
fn utc_timestamp_format(secs: i64, fmt: &str) -> (res: Option<String>)
    requires
        fmt@ == date_pattern(),
    ensures
        res is Some <==> chrono_utc_in_range(secs as int),
        res matches Some(s) ==> s@ == chrono_utc_format(secs, fmt@),
{
    chrono::DateTime::from_timestamp(secs, 0).map(|dt| dt.format(fmt).to_string())
}

/// The UTC calendar date (`YYYY-MM-DD`) of a Unix timestamp, if chrono can
/// represent it.
pub fn format_event_date(timestamp_secs: i64) -> (res: Option<String>)
    ensures
        res is Some <==> chrono_utc_in_range(timestamp_secs as int),
        res matches Some(s) ==> s@ == chrono_utc_format(timestamp_secs, date_pattern()),
{
    let pattern = "%Y-%m-%d";
    proof {
        reveal_strlit("%Y-%m-%d");
        assert(pattern@ =~= date_pattern());
    }
    utc_timestamp_format(timestamp_secs, pattern)
}

/// The `(prefix, name)` split of an entrant name: the text after the last
/// `|` is the name, the pieces before it, each trimmed, joined with `|` are
/// the prefix; a name without `|` has an empty prefix.
pub open spec fn prefix_and_name(entrant_name: Seq<char>) -> (Seq<char>, Seq<char>) {
    let pieces = split_char(entrant_name, '|');
    if pieces.len() == 1 {
        (Seq::empty(), trim(entrant_name))
    } else {
        (join(pieces.drop_last().map_values(|p: Seq<char>| trim(p)), seq!['|']), trim(pieces.last()))
    }
}

/// Splits an entrant name such as `"Team | Player"` into its sponsor
/// prefix and the player name.
pub fn split_prefix_and_name(entrant_name: &str) -> (res: (String, String))
    ensures
        (res.0@, res.1@) == prefix_and_name(entrant_name@),
{
    let split_name = split_str(entrant_name, '|');
    let ghost pieces = split_char(entrant_name@, '|');
    proof {
        crate::text::lemma_split_char_nonempty(entrant_name@, '|');
    }
    if split_name.len() == 1 {
        proof {
            assert(split_name.deep_view()[0] == split_name[0]@);
        }
        (String::new(), trim_str(entrant_name))
    } else {
        let last = split_name.len() - 1;
        let mut trimmed: Vec<String> = Vec::new();
        let mut i: usize = 0;
        while i < last
            invariant
                last + 1 == split_name.len(),
                split_name.deep_view() == pieces,
                i <= last,
                trimmed.deep_view() =~= pieces.take(i as int).map_values(|p: Seq<char>| trim(p)),
            decreases last - i,
        {
            let t = trim_str(split_name[i].as_str());
            let ghost before = trimmed.deep_view();
            trimmed.push(t);
            proof {
                assert(split_name.deep_view()[i as int] == split_name@[i as int]@);
                assert(trimmed.deep_view() =~= before.push(t@));
                assert(trimmed.deep_view() =~= pieces.take(i + 1).map_values(
                    |p: Seq<char>| trim(p),
                ));
            }
            i = i + 1;
        }
        let bar = "|";
        proof {
            reveal_strlit("|");
            assert(bar@ =~= seq!['|']);
            assert(pieces.take(last as int) =~= pieces.drop_last());
            assert(pieces.last() == split_name[last as int]@);
        }
        let prefix = join_strs(&trimmed, bar);
        let name = trim_str(split_name[last].as_str());
        (prefix, name)
    }
}

/// The text of an id.
pub fn id_to_string(id: &StartggId) -> (res: String)
    ensures
        res@ == id@,
{
    String::from_str(id.as_string())
}

/// The decimal text of a set's winner id.
pub fn winner_id_to_string(winner_id: i32) -> (res: String)
    ensures
        res@ == int_decimal(winner_id as int),
{
    i64_to_string(winner_id as i64)
}

/// `"..."`
pub open spec fn ellipsis() -> Seq<char> {
    seq!['.', '.', '.']
}

/// The body as it is when it has at most `max_len` bytes, else its first
/// `max_len` bytes followed by `...`.
pub open spec fn summarized(body: Seq<char>, max_len: int) -> Seq<char> {
    if vstd::utf8::encode_utf8(body).len() <= max_len {
        body
    } else {
        vstd::utf8::decode_utf8(vstd::utf8::encode_utf8(body).subrange(0, max_len)) + ellipsis()
    }
}

/// Cutting `body` to `max_len` bytes does not split a character.
pub open spec fn cuttable(body: Seq<char>, max_len: int) -> bool {
    vstd::utf8::encode_utf8(body).len() <= max_len || vstd::utf8::is_char_boundary(
        vstd::utf8::encode_utf8(body),
        max_len,
    )
}

/// Shortens a response body for an error message. Cutting is by bytes, so
/// `max_len` must fall on a character boundary when the body is longer.
pub fn summarize_body(body: &str, max_len: usize) -> (res: String)
    requires
        cuttable(body@, max_len as int),
    ensures
        res@ == summarized(body@, max_len as int),
{
    if body.as_bytes().len() <= max_len {
        let r = String::from_str(body);
        assert(r@ == summarized(body@, max_len as int));
        r
    } else {
        let (head, _) = body.split_at(max_len);
        proof {
            broadcast use vstd::utf8::encode_utf8_decode_utf8;

            assert(vstd::utf8::encode_utf8(head@) =~= vstd::utf8::encode_utf8(body@).subrange(
                0,
                max_len as int,
            ));
            assert(vstd::utf8::decode_utf8(vstd::utf8::encode_utf8(head@)) == head@);
        }
        let mut res = String::from_str(head);
        let dots = "...";
        proof {
            reveal_strlit("...");
            assert(dots@ =~= ellipsis());
        }
        res.append(dots);
        assert(res@ == head@ + ellipsis());
        assert(res@ == summarized(body@, max_len as int));
        res
    }
}

/// `"page {page}/{total}"`, or `"page {page}"` while the total is unknown.
pub open spec fn page_counter(page: i32, total_pages: Option<i32>) -> Seq<char> {
    match total_pages {
        Some(total) => seq!['p', 'a', 'g', 'e', ' '] + int_decimal(page as int) + seq!['/']
            + int_decimal(total as int),
        None => seq!['p', 'a', 'g', 'e', ' '] + int_decimal(page as int),
    }
}

pub fn format_page_counter(page: i32, total_pages: Option<i32>) -> (res: String)
    ensures
        res@ == page_counter(page, total_pages),
{
    let word = "page ";
    proof {
        reveal_strlit("page ");
        assert(word@ =~= seq!['p', 'a', 'g', 'e', ' ']);
    }
    let mut res = String::from_str(word);
    res.append(i64_to_string(page as i64).as_str());
    match total_pages {
        Some(total) => {
            let slash = "/";
            proof {
                reveal_strlit("/");
                assert(slash@ =~= seq!['/']);
            }
            res.append(slash);
            res.append(i64_to_string(total as i64).as_str());
        },
        None => {},
    }
    res
}

/// `"unknown"`
pub open spec fn unknown_text() -> Seq<char> {
    seq!['u', 'n', 'k', 'n', 'o', 'w', 'n']
}

/// A response's content type as reported, or `unknown` when the header is
/// missing or not text.
pub fn content_type_or_unknown(header: Option<&str>) -> (res: String)
    ensures
        res@ == match header {
            Some(v) => v@,
            None => unknown_text(),
        },
{
    match header {
        Some(v) => String::from_str(v),
        None => {
            let u = "unknown";
            proof {
                reveal_strlit("unknown");
                assert(u@ =~= unknown_text());
            }
            String::from_str(u)
        },
    }
}

} // verus!
