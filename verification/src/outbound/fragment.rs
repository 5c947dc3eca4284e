//! The way out that cuts the first payload of a connection into pieces.

use crate::config::FragmentSettings;
use crate::text::{
    decimal_text, is_first_index, is_white_space, lemma_decimal_read, lemma_decimal_text,
    lemma_first_index, lemma_no_index, parse_usize, split_in_two, split_two, trim_text, trimmed,
    unsigned_value,
};
use rand::Rng;
use vstd::prelude::*;
use vstd::string::*;

verus! {

/// The way out that cuts the first payload of a connection into pieces.
#[derive(Debug)]
pub struct FragmentOutbound {
    pub settings: Option<FragmentSettings>,
}

/// The number that a text spells, with white space around it or not, and else a default.
pub open spec fn number_or(text: Seq<char>, default: usize) -> usize {
    match unsigned_value(trimmed(text), usize::MAX as nat) {
        Some(n) => n as usize,
        None => default,
    }
}

/// The range that a text such as `1-5` spells. A bound that is no number gets its default; a
/// text without exactly one hyphen gets both.
pub open spec fn range_of(text: Seq<char>, default_min: usize, default_max: usize) -> (
    usize,
    usize,
) {
    match split_in_two(text, '-') {
        Some(p) => (number_or(p.0, default_min), number_or(p.1, default_max)),
        None => (default_min, default_max),
    }
}

/// The range of the sizes of the pieces.
pub open spec fn size_range(s: FragmentSettings) -> (usize, usize) {
    range_of(s.length@, 1, 10)
}

/// The range from which the largest number of pieces is drawn.
pub open spec fn packet_range(s: FragmentSettings) -> (usize, usize) {
    range_of(s.packets@, 1, 5)
}

/// Whether the settings can be drawn from. Where all sizes are zero nothing else is drawn.
pub open spec fn can_draw(s: FragmentSettings) -> bool {
    &&& size_range(s).0 <= size_range(s).1
    &&& size_range(s).1 > 0 ==> packet_range(s).0 <= packet_range(s).1
}

/// A piece of a payload, and for how many milliseconds to wait behind it.
#[derive(Debug, Clone, Copy, PartialEq, Eq)]
pub struct Piece {
    pub start: usize,
    pub end: usize,
    pub pause: Option<u64>,
}

/// The piece at an offset of a payload of `n` bytes when `size` was drawn. The last piece that
/// there may be takes all that is left. Nothing if no size was drawn or nothing is left.
pub open spec fn piece_at(
    offset: usize,
    n: usize,
    size: usize,
    last: bool,
    interval: u64,
) -> Option<Piece> {
    let end = if !last && size < n - offset {
        (offset + size) as usize
    } else {
        n
    };
    if size == 0 || end <= offset {
        None
    } else {
        Some(
            Piece {
                start: offset,
                end,
                pause: if end < n && interval > 0 {
                    Some(interval)
                } else {
                    None
                },
            },
        )
    }
}

/// Where the next piece starts.
pub open spec fn covered(pieces: Seq<Piece>) -> usize {
    if pieces.len() == 0 {
        0
    } else {
        pieces.last().end
    }
}

/// Whether a piece is what a draw of a size between `min` and `max` can give at an offset.
pub open spec fn some_size_gives(
    piece: Piece,
    offset: usize,
    n: usize,
    min: usize,
    max: usize,
    last: bool,
    interval: u64,
) -> bool {
    exists|size: usize|
        min <= size <= max && #[trigger] piece_at(offset, n, size, last, interval) == Some(piece)
}

/// Whether pieces are what draws of sizes between `min` and `max` can give when there may be
/// `limit` of them: each is the piece at the end of the one before it.
pub open spec fn cut_up(
    pieces: Seq<Piece>,
    n: usize,
    min: usize,
    max: usize,
    limit: usize,
    interval: u64,
) -> bool
    decreases pieces.len(),
{
    pieces.len() > 0 ==> {
        &&& cut_up(pieces.drop_last(), n, min, max, limit, interval)
        &&& some_size_gives(
            pieces.last(),
            covered(pieces.drop_last()),
            n,
            min,
            max,
            pieces.len() >= limit,
            interval,
        )
    }
}

/// Whether pieces are what draws from the settings can give: a largest number of pieces, and a
/// size for each.
pub open spec fn drawn_pieces(pieces: Seq<Piece>, n: usize, s: FragmentSettings) -> bool {
    exists|limit: usize|
        {
            &&& size_range(s).1 > 0 ==> packet_range(s).0 <= limit <= packet_range(s).1
            &&& #[trigger] cut_up(
                pieces,
                n,
                size_range(s).0,
                size_range(s).1,
                limit,
                s.interval,
            )
        }
}

/// The bytes of the pieces, one behind the other.
pub open spec fn joined(payload: Seq<u8>, pieces: Seq<Piece>) -> Seq<u8>
    decreases pieces.len(),
{
    if pieces.len() == 0 {
        Seq::empty()
    } else {
        joined(payload, pieces.drop_last()) + payload.subrange(
            pieces.last().start as int,
            pieces.last().end as int,
        )
    }
}

/// The pieces of a payload, one behind the other, are the payload up to where they end:
/// nothing is changed, doubled or left out between them.
pub proof fn law_pieces_join(
    payload: Seq<u8>,
    pieces: Seq<Piece>,
    n: usize,
    min: usize,
    max: usize,
    limit: usize,
    interval: u64,
)
    requires
        payload.len() == n,
        cut_up(pieces, n, min, max, limit, interval),
    ensures
        covered(pieces) <= n,
        joined(payload, pieces) == payload.take(covered(pieces) as int),
    decreases pieces.len(),
{
    if pieces.len() > 0 {
        let front = pieces.drop_last();
        law_pieces_join(payload, front, n, min, max, limit, interval);
        let last = pieces.last();
        assert(joined(payload, pieces) =~= payload.take(last.end as int));
    } else {
        assert(joined(payload, pieces) =~= payload.take(0));
    }
}

/// There are no more pieces than there may be, and one where there may be none: the last one
/// takes all that is left.
pub proof fn law_no_more_pieces_than_drawn(
    pieces: Seq<Piece>,
    n: usize,
    min: usize,
    max: usize,
    limit: usize,
    interval: u64,
)
    requires
        cut_up(pieces, n, min, max, limit, interval),
    ensures
        pieces.len() <= limit || pieces.len() <= 1,
        pieces.len() > 0 && pieces.len() >= limit ==> covered(pieces) == n,
    decreases pieces.len(),
{
    if pieces.len() > 0 {
        law_no_more_pieces_than_drawn(pieces.drop_last(), n, min, max, limit, interval);
    }
}

/// A payload is cut into as many pieces as the settings say: at most as many as the largest
/// number that can be drawn, and at least one if no size can be zero. With `1-5` there are one
/// to five.
pub proof fn law_pieces_within_range(pieces: Seq<Piece>, n: usize, s: FragmentSettings)
    requires
        drawn_pieces(pieces, n, s),
        can_draw(s),
    ensures
        pieces.len() <= packet_range(s).1 || pieces.len() <= 1,
        n > 0 && covered(pieces) == n ==> pieces.len() >= 1,
{
    let limit = choose|limit: usize|
        {
            &&& size_range(s).1 > 0 ==> packet_range(s).0 <= limit <= packet_range(s).1
            &&& #[trigger] cut_up(
                pieces,
                n,
                size_range(s).0,
                size_range(s).1,
                limit,
                s.interval,
            )
        };
    law_no_more_pieces_than_drawn(
        pieces,
        n,
        size_range(s).0,
        size_range(s).1,
        limit,
        s.interval,
    );
}

/// `Rng::gen_range` on a thread's generator: some number of an inclusive range. Which one
/// depends on chance. It panics on an empty range.
#[verifier::external_body]
pub(crate) fn random_in(min: usize, max: usize) -> (r: usize)
    requires
        min <= max,
    ensures
        min <= r <= max,
{
    rand::thread_rng().gen_range(min..=max)
}

/// The piece at an offset of a payload of `n` bytes when `size` was drawn. `last` says whether
/// there may be no further one.
pub fn next_piece(offset: usize, n: usize, size: usize, last: bool, interval: u64) -> (r: Option<
    Piece,
>)
    requires
        offset <= n,
    ensures
        r == piece_at(offset, n, size, last, interval),
{
    let left: usize = n - offset;
    if size == 0 || left == 0 {
        return None;
    }
    let end: usize = if !last && size < left {
        offset + size
    } else {
        n
    };
    let pause = if end < n && interval > 0 {
        Some(interval)
    } else {
        None
    };
    Some(Piece { start: offset, end, pause })
}

/// Whether the next payload of a connection is the first one.
#[derive(Debug)]
pub struct Upload {
    pub first: bool,
}

impl Upload {
    /// A connection that has sent nothing yet.
    pub fn new() -> (r: Upload)
        ensures
            r.first,
    {
        Upload { first: true }
    }

    /// Whether the payload that comes now is cut into pieces: the first one is, if there are
    /// settings for it.
    pub fn cuts(&mut self, settings: &Option<FragmentSettings>) -> (r: bool)
        ensures
            r == (old(self).first && *settings is Some),
            final(self).first == (old(self).first && !r),
    {
        let r = self.first && settings.is_some();
        if r {
            self.first = false;
        }
        r
    }
}

/// The number that a text spells, with white space around it or not, and else a default.
fn read_number(text: &str, default: usize) -> (r: usize)
    ensures
        r == number_or(text@, default),
{
    match parse_usize(trim_text(text)) {
        Some(n) => n,
        None => default,
    }
}

impl FragmentOutbound {
    /// The way out with its settings.
    pub fn new(settings: Option<FragmentSettings>) -> (r: FragmentOutbound)
        ensures
            r.settings == settings,
    {
        FragmentOutbound { settings }
    }

    /// The range that a text such as `1-5` spells.
    pub fn parse_range(range_str: &str, default_min: usize, default_max: usize) -> (r: (
        usize,
        usize,
    ))
        ensures
            r == range_of(range_str@, default_min, default_max),
    {
        match split_two(range_str, '-') {
            Some(p) => (
                read_number(p.0.as_str(), default_min),
                read_number(p.1.as_str(), default_max),
            ),
            None => (default_min, default_max),
        }
    }

    /// Whether the settings can be drawn from.
    pub fn drawable(s: &FragmentSettings) -> (r: bool)
        ensures
            r == can_draw(*s),
    {
        let sizes = Self::parse_range(s.length.as_str(), 1, 10);
        let packets = Self::parse_range(s.packets.as_str(), 1, 5);
        sizes.0 <= sizes.1 && (sizes.1 == 0 || packets.0 <= packets.1)
    }

    /// Cuts a payload of `n` bytes into pieces. How many there may be and what their sizes are
    /// depends on chance. The pieces reach to the end of the payload, unless a size of zero was
    /// drawn.
    pub fn pieces(s: &FragmentSettings, n: usize) -> (r: Vec<Piece>)
        requires
            can_draw(*s),
        ensures
            drawn_pieces(r@, n, *s),
            r@.len() <= packet_range(*s).1 || r@.len() <= 1,
            size_range(*s).0 > 0 ==> covered(r@) == n,
            covered(r@) <= n,
    {
        let (min, max) = Self::parse_range(s.length.as_str(), 1, 10);
        let (min_packets, max_packets) = Self::parse_range(s.packets.as_str(), 1, 5);
        let interval: u64 = s.interval;
        let mut out: Vec<Piece> = Vec::new();
        let limit: usize = if max > 0 {
            random_in(min_packets, max_packets)
        } else {
            0
        };
        let mut offset: usize = 0;
        while offset < n
            invariant
                min <= max,
                offset <= n,
                offset == covered(out@),
                cut_up(out@, n, min, max, limit, interval),
            ensures
                offset <= n,
                offset == covered(out@),
                cut_up(out@, n, min, max, limit, interval),
                min > 0 ==> offset == n,
            decreases n - offset,
        {
            let size: usize = random_in(min, max);
            let last: bool = limit == 0 || out.len() >= limit - 1;
            match next_piece(offset, n, size, last, interval) {
                None => {
                    break;
                },
                Some(piece) => {
                    let ghost before = out@;
                    out.push(piece);
                    proof {
                        assert(out@.drop_last() =~= before);
                        assert(piece_at(covered(before), n, size, last, interval) == Some(piece));
                        assert(last == (out@.len() >= limit));
                    }
                    offset = piece.end;
                },
            }
        }
        proof {
            law_pieces_within_range(out@, n, *s);
        }
        out
    }
}

/// Each piece starts where the one before it ends and has at least one byte. Its size is one of
/// those that can be drawn, unless it is the last one: that one may be smaller, and may be
/// larger only where there may be no further piece. Behind each piece but the one that ends the
/// payload there is the pause of the settings.
pub proof fn law_pieces_follow_each_other(
    pieces: Seq<Piece>,
    n: usize,
    min: usize,
    max: usize,
    limit: usize,
    interval: u64,
    i: int,
)
    requires
        cut_up(pieces, n, min, max, limit, interval),
        0 <= i < pieces.len(),
    ensures
        ({
            let p = pieces[i];
            let size = p.end - p.start;
            &&& p.start == if i == 0 {
                0
            } else {
                pieces[i - 1].end as int
            }
            &&& 0 < size
            &&& p.end <= n
            &&& i + 1 < pieces.len() ==> p.end < n && i + 1 < limit
            &&& i + 1 < limit ==> size <= max && (p.end < n ==> min <= size)
            &&& i + 1 >= limit ==> p.end == n
            &&& p.pause == if p.end < n && interval > 0 {
                Some(interval)
            } else {
                None
            }
        }),
    decreases pieces.len(),
{
    let front = pieces.drop_last();
    if front.len() > 0 {
        law_pieces_follow_each_other(front, n, min, max, limit, interval, front.len() - 1);
        assert(covered(front) == front[front.len() - 1].end);
    }
    if i < front.len() {
        law_pieces_follow_each_other(front, n, min, max, limit, interval, i);
        assert(front[i] == pieces[i]);
        if i > 0 {
            assert(front[i - 1] == pieces[i - 1]);
        }
    } else if i > 0 {
        assert(front.last() == pieces[i - 1]);
    }
}

/// A range that is written as two numbers with a hyphen between them is read as these numbers.
pub proof fn law_range_is_read(a: usize, b: usize, default_min: usize, default_max: usize)
    ensures
        range_of(
            decimal_text(a as nat).push('-') + decimal_text(b as nat),
            default_min,
            default_max,
        ) == (a, b),
{
    let x = decimal_text(a as nat);
    let y = decimal_text(b as nat);
    lemma_decimal_text(a as nat);
    lemma_decimal_text(b as nat);
    assert forall|j: int| 0 <= j < x.len() implies x[j] != '-' by {
        assert('0' <= x[j] <= '9');
    }
    assert forall|j: int| 0 <= j < y.len() implies y[j] != '-' by {
        assert('0' <= y[j] <= '9');
    }
    law_range_by_its_parts(x, y, default_min, default_max);
    lemma_number_is_read(a, default_min);
    lemma_number_is_read(b, default_max);
}

/// The decimal text of a number is read as the number.
proof fn lemma_number_is_read(n: usize, default: usize)
    ensures
        number_or(decimal_text(n as nat), default) == n,
{
    let x = decimal_text(n as nat);
    lemma_decimal_text(n as nat);
    lemma_decimal_read(n as nat, usize::MAX as nat);
    assert('0' <= x[0] <= '9');
    assert('0' <= x[x.len() - 1] <= '9');
    assert(trimmed(x) == x);
}

/// The two bounds of a range are read apart from each other, each with its own default.
pub proof fn law_range_by_its_parts(
    x: Seq<char>,
    y: Seq<char>,
    default_min: usize,
    default_max: usize,
)
    requires
        forall|j: int| 0 <= j < x.len() ==> x[j] != '-',
        forall|j: int| 0 <= j < y.len() ==> y[j] != '-',
    ensures
        range_of(x.push('-') + y, default_min, default_max) == (
            number_or(x, default_min),
            number_or(y, default_max),
        ),
{
    let s = x.push('-') + y;
    assert(is_first_index(s, '-', x.len() as int));
    lemma_first_index(s, '-', x.len() as int);
    assert(s.take(x.len() as int) =~= x);
    assert(s.skip(x.len() as int + 1) =~= y);
    lemma_no_index(y, '-');
}

/// Where there are not two bounds, or a bound is no number, the defaults are taken: one to ten
/// for sizes, one to five for the number of pieces.
pub proof fn law_range_defaults(s: FragmentSettings, text: Seq<char>, default: usize)
    ensures
        (forall|j: int| 0 <= j < s.length@.len() ==> s.length@[j] != '-') ==> size_range(s) == (
            1usize,
            10usize,
        ),
        (forall|j: int| 0 <= j < s.packets@.len() ==> s.packets@[j] != '-') ==> packet_range(s) == (
            1usize,
            5usize,
        ),
        text.len() == 0 ==> number_or(text, default) == default,
        text.len() > 0 && !('0' <= text[0] <= '9') && text[0] != '+' && !is_white_space(text[0])
            && !is_white_space(text.last()) ==> number_or(text, default) == default,
{
    if forall|j: int| 0 <= j < s.length@.len() ==> s.length@[j] != '-' {
        lemma_no_index(s.length@, '-');
    }
    if forall|j: int| 0 <= j < s.packets@.len() ==> s.packets@[j] != '-' {
        lemma_no_index(s.packets@, '-');
    }
}

/// A piece reaches from where it starts over as many bytes as were drawn, but not beyond the
/// payload, and to its end where there may be no further piece.
pub proof fn law_piece_reaches(offset: usize, n: usize, size: usize, last: bool, interval: u64)
    requires
        offset <= n,
    ensures
        piece_at(offset, n, size, last, interval) is None <==> size == 0 || offset == n,
        piece_at(offset, n, size, last, interval) matches Some(p) ==> {
            &&& p.start == offset
            &&& last || offset + size >= n ==> p.end == n
            &&& !last && offset + size < n ==> p.end == offset + size
            &&& p.pause is Some <==> p.end < n && interval > 0
            &&& p.pause is Some ==> p.pause == Some(interval)
        },
{
}

/// Settings can be drawn from exactly if neither of the two ranges is empty; the number of
/// pieces is not drawn where all sizes are zero.
pub proof fn law_settings_can_be_drawn_from(s: FragmentSettings)
    ensures
        can_draw(s) <==> {
            let sizes = range_of(s.length@, 1, 10);
            let packets = range_of(s.packets@, 1, 5);
            sizes.0 <= sizes.1 && (sizes.1 == 0 || packets.0 <= packets.1)
        },
{
}

} // verus!
