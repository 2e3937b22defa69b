//! The lines that report the progress of a crawl.

use crate::text::{chars_of, decimal, push_all, push_decimal, push_repeat, push_str, string_of};
use crate::timefmt::{format_timestamp, is_timestamp_text};
use vstd::prelude::*;

verus! {

/// The width to which room names are cut or padded.
pub const ROOM_NAME_WIDTH: usize = 38;

/// `count` spaces.
pub open spec fn spaces(count: int) -> Seq<char> {
    Seq::new(
        if count > 0 {
            count as nat
        } else {
            0
        },
        |i: int| ' ',
    )
}

/// `s` brought to `width` characters: padded with spaces on the right
/// where it is shorter; where it is longer, its start and its end with an
/// ellipsis between, the start the longer of the two by at most one.
pub open spec fn fitted(s: Seq<char>, width: int) -> Seq<char> {
    if s.len() <= width {
        s + spaces(width - s.len())
    } else if width <= 1 {
        s.take(width)
    } else {
        let available = width - 1;
        let start = (available + 1) / 2;
        let end = available / 2;
        s.take(start) + seq!['\u{2026}'] + s.skip(s.len() - end)
    }
}

/// `s` cut or padded to `max_width` characters.
pub fn truncate_middle(s: &str, max_width: usize) -> (out: String)
    ensures
        out@ == fitted(s@, max_width as int),
        out@.len() == max_width,
{
    let chars = chars_of(s);
    let n = chars.len();
    let mut out: Vec<char> = Vec::new();
    if n <= max_width {
        push_all(&mut out, &chars);
        push_repeat(&mut out, ' ', max_width - n);
        assert(out@ =~= fitted(s@, max_width as int));
    } else if max_width <= 1 {
        let mut i: usize = 0;
        while i < max_width
            invariant
                i <= max_width < n,
                n == chars@.len(),
                out@ == chars@.take(i as int),
            decreases max_width - i,
        {
            out.push(chars[i]);
            i = i + 1;
            assert(out@ =~= chars@.take(i as int));
        }
    } else {
        let available = max_width - 1;
        let start = available - available / 2;
        let end = available / 2;
        let mut i: usize = 0;
        while i < start
            invariant
                i <= start < n,
                n == chars@.len(),
                out@ == chars@.take(i as int),
            decreases start - i,
        {
            out.push(chars[i]);
            i = i + 1;
            assert(out@ =~= chars@.take(i as int));
        }
        out.push('\u{2026}');
        let mut j: usize = n - end;
        while j < n
            invariant
                end <= n,
                start <= n,
                n - end <= j <= n,
                n == chars@.len(),
                out@ == chars@.take(start as int) + seq!['\u{2026}'] + chars@.subrange(
                    n - end,
                    j as int,
                ),
            decreases n - j,
        {
            out.push(chars[j]);
            j = j + 1;
            assert(out@ =~= chars@.take(start as int) + seq!['\u{2026}'] + chars@.subrange(
                n - end,
                j as int,
            ));
        }
        assert(chars@.subrange(n - end, n as int) =~= chars@.skip(n - end));
        assert(out@ =~= fitted(s@, max_width as int));
    }
    string_of(&out)
}

/// `n` in decimal, with spaces before it up to five characters.
pub open spec fn right_aligned(n: nat) -> Seq<char> {
    spaces(5 - decimal(n).len()) + decimal(n)
}

/// The text that follows the number of events: the time of the oldest
/// event to the minute, the owner's events where there are any, and the
/// mark of a room crawled to its creation.
pub open spec fn tail_text(oldest_text: Seq<char>, user_events: nat, fully_crawled: bool) -> Seq<char> {
    (if oldest_text.len() >= 16 {
        oldest_text.take(16)
    } else {
        oldest_text
    }) + (if user_events > 0 {
        " ("@ + decimal(user_events) + " from you)"@
    } else {
        Seq::empty()
    }) + (if fully_crawled {
        seq![' ', '\u{1F4AF}']
    } else {
        Seq::empty()
    })
}

/// Whether `line` reports a room whose walk has ended: its name in 38
/// characters, and, where an oldest event is known, the events fetched and
/// what `tail_text` adds.
pub open spec fn is_completed_line(
    line: Seq<char>,
    room_name: Seq<char>,
    total_events: nat,
    user_events: nat,
    oldest_ts: Option<i64>,
    fully_crawled: bool,
) -> bool {
    match oldest_ts {
        None => line == fitted(room_name, ROOM_NAME_WIDTH as int),
        Some(oldest) => exists|oldest_text: Seq<char>|
            #[trigger] is_timestamp_text(oldest, oldest_text) && line == fitted(
                room_name,
                ROOM_NAME_WIDTH as int,
            ) + seq![' '] + right_aligned(total_events) + " events from "@ + tail_text(
                oldest_text,
                user_events,
                fully_crawled,
            ),
    }
}

/// The line that reports a room whose walk has ended.
pub fn format_completed_room(
    room_name: &str,
    total_events: usize,
    user_events: usize,
    oldest_ts: Option<i64>,
    newest_ts: Option<i64>,
    fully_crawled: bool,
) -> (line: String)
    ensures
        is_completed_line(
            line@,
            room_name@,
            total_events as nat,
            user_events as nat,
            oldest_ts,
            fully_crawled,
        ),
{
    let truncated_name = truncate_middle(room_name, ROOM_NAME_WIDTH);
    let oldest = match oldest_ts {
        Some(oldest) => oldest,
        None => {
            return truncated_name;
        },
    };
    let mut out = chars_of(truncated_name.as_str());
    out.push(' ');
    let mut digits: Vec<char> = Vec::new();
    push_decimal(&mut digits, total_events as u64);
    assert(digits@ =~= decimal(total_events as nat));
    if digits.len() < 5 {
        push_repeat(&mut out, ' ', 5 - digits.len());
    }
    push_all(&mut out, &digits);
    assert(out@ =~= fitted(room_name@, ROOM_NAME_WIDTH as int) + seq![' '] + right_aligned(
        total_events as nat,
    )) by {
        assert(spaces(5 - digits@.len()) =~= Seq::new(
            if digits@.len() < 5 {
                (5 - digits@.len()) as nat
            } else {
                0
            },
            |i: int| ' ',
        ));
        if digits@.len() >= 5 {
            assert(spaces(5 - digits@.len()) =~= Seq::<char>::empty());
        }
    }
    push_str(&mut out, " events from ");
    let ghost head = out@;
    let oldest_full = chars_of(format_timestamp(oldest).as_str());
    let mut i: usize = 0;
    let shown = if oldest_full.len() >= 16 {
        16
    } else {
        oldest_full.len()
    };
    while i < shown
        invariant
            i <= shown <= oldest_full@.len(),
            out@ == head + oldest_full@.take(i as int),
        decreases shown - i,
    {
        out.push(oldest_full[i]);
        i = i + 1;
        assert(out@ =~= head + oldest_full@.take(i as int));
    }
    assert(oldest_full@.take(oldest_full@.len() as int) =~= oldest_full@);
    if user_events > 0 {
        push_str(&mut out, " (");
        push_decimal(&mut out, user_events as u64);
        push_str(&mut out, " from you)");
    }
    if fully_crawled {
        out.push(' ');
        out.push('\u{1F4AF}');
    }
    assert(out@ =~= head + tail_text(oldest_full@, user_events as nat, fully_crawled));
    assert(is_timestamp_text(oldest, oldest_full@));
    string_of(&out)
}

} // verus!
