//! Texts as sequences of characters: cutting one at every occurrence of a
//! pattern, putting pieces together again, and taking a range of its bytes.

use vstd::prelude::*;
use vstd::string::StringExecFns;
use vstd::string::StringSliceAdditionalSpecFns;
use vstd::utf8::char_is_scalar;
use vstd::utf8::decode_utf8;
use vstd::utf8::encode_scalar;
use vstd::utf8::encode_utf8;
use vstd::utf8::encode_utf8_decode_utf8;
use vstd::utf8::encode_utf8_first_scalar;
use vstd::utf8::encode_utf8_valid_utf8;
use vstd::utf8::is_char_boundary;
use vstd::utf8::is_char_boundary_iff_not_is_continuation_byte;
use vstd::utf8::is_char_boundary_start_end_of_seq;
use vstd::utf8::pop_first_scalar;
use vstd::utf8::valid_utf8_split;

verus! {

/// The length in bytes of a text's UTF-8 form.
pub open spec fn byte_len(text: Seq<char>) -> nat {
    encode_utf8(text).len()
}

/// The texts that a sequence of strings holds, in order.
pub open spec fn texts(strings: Seq<String>) -> Seq<Seq<char>> {
    strings.map_values(|s: String| s@)
}

/// Whether `pattern` stands in `text` from position `at` on.
pub open spec fn occurs_at(text: Seq<char>, pattern: Seq<char>, at: int) -> bool {
    &&& 0 <= at
    &&& at + pattern.len() <= text.len()
    &&& text.subrange(at, at + pattern.len()) == pattern
}

/// The pieces of `text` from `start` on, where no occurrence of `pattern`
/// that begins in `start..at` is left to cut at. Occurrences are taken from
/// the left and do not overlap.
pub open spec fn pieces_from(text: Seq<char>, pattern: Seq<char>, start: int, at: int) -> Seq<
    Seq<char>,
>
    decreases text.len() - at,
{
    if pattern.len() == 0 || at < 0 || at + pattern.len() > text.len() {
        seq![text.subrange(start, text.len() as int)]
    } else if occurs_at(text, pattern, at) {
        seq![text.subrange(start, at)] + pieces_from(
            text,
            pattern,
            at + pattern.len(),
            at + pattern.len(),
        )
    } else {
        pieces_from(text, pattern, start, at + 1)
    }
}

/// The pieces that an empty pattern cuts `text` into: an empty piece, each
/// character as a piece of its own, and an empty piece again.
pub open spec fn pieces_by_char(text: Seq<char>) -> Seq<Seq<char>> {
    seq![Seq::<char>::empty()] + Seq::new(text.len(), |i: int| seq![text[i]]) + seq![
        Seq::<char>::empty(),
    ]
}

/// The pieces of `text` between the occurrences of `pattern`, taken from the
/// left and not overlapping. There is one piece more than there are
/// occurrences, so a text without any is its own single piece.
pub open spec fn split_spec(text: Seq<char>, pattern: Seq<char>) -> Seq<Seq<char>> {
    if pattern.len() == 0 {
        pieces_by_char(text)
    } else {
        pieces_from(text, pattern, 0, 0)
    }
}

/// The pieces in order, with `separator` between each two neighbours.
pub open spec fn join_spec(pieces: Seq<Seq<char>>, separator: Seq<char>) -> Seq<char>
    decreases pieces.len(),
{
    if pieces.len() == 0 {
        Seq::empty()
    } else if pieces.len() == 1 {
        pieces[0]
    } else {
        join_spec(pieces.drop_last(), separator) + separator + pieces.last()
    }
}

/// What a range of bytes of a text is: the bounds are first brought down to
/// the text's length in bytes.
pub enum CutView {
    /// The lower bound lies above the upper one: nothing is taken.
    Nothing,
    /// A bound falls inside a character's bytes.
    Broken,
    /// The characters whose bytes the range holds.
    Part(Seq<char>),
}

/// The range `from..to` of the bytes of `text`.
pub open spec fn cut_spec(text: Seq<char>, from: nat, to: nat) -> CutView {
    let bytes = encode_utf8(text);
    let low = if from <= bytes.len() {
        from as int
    } else {
        bytes.len() as int
    };
    let high = if to <= bytes.len() {
        to as int
    } else {
        bytes.len() as int
    };
    if low > high {
        CutView::Nothing
    } else if !is_char_boundary(bytes, low) || !is_char_boundary(bytes, high) {
        CutView::Broken
    } else {
        CutView::Part(decode_utf8(bytes.subrange(low, high)))
    }
}

/// The byte at which the character at position `at` begins in the UTF-8
/// form of `text`; for the position behind the last one, the form's length.
pub open spec fn byte_offset(text: Seq<char>, at: int) -> nat {
    encode_utf8(text.take(at)).len()
}

/// Whether `starts` holds the byte offset of every position of `text`, the
/// one behind the last character too.
pub open spec fn is_index_of(starts: Seq<usize>, text: Seq<char>) -> bool {
    &&& starts.len() == text.len() + 1
    &&& forall|i: int| 0 <= i <= text.len() ==> #[trigger] starts[i] == byte_offset(text, i)
}

/// The UTF-8 form of two texts put together is their forms put together.
pub proof fn lemma_encode_concat(front: Seq<char>, back: Seq<char>)
    ensures
        encode_utf8(front + back) == encode_utf8(front) + encode_utf8(back),
    decreases front.len(),
{
    let all = front + back;
    if front.len() == 0 {
        assert(all =~= back);
        assert(encode_utf8(all) =~= encode_utf8(front) + encode_utf8(back));
    } else {
        assert(all[0] == front[0]);
        assert(all.drop_first() =~= front.drop_first() + back);
        lemma_encode_concat(front.drop_first(), back);
        assert(encode_utf8(all) =~= encode_utf8(front) + encode_utf8(back));
    }
}

/// In the UTF-8 form of two texts put together, a character begins where
/// the form of the first text ends.
pub proof fn lemma_boundary_between(front: Seq<char>, back: Seq<char>)
    ensures
        is_char_boundary(encode_utf8(front + back), encode_utf8(front).len() as int),
    decreases front.len(),
{
    let all = front + back;
    let bytes = encode_utf8(all);
    encode_utf8_valid_utf8(all);
    if front.len() > 0 {
        encode_utf8_first_scalar(all);
        lemma_encode_concat(front, back);
        assert(all[0] == front[0]);
        assert(all.drop_first() =~= front.drop_first() + back);
        assert(pop_first_scalar(bytes) =~= encode_utf8(all.drop_first()));
        lemma_boundary_between(front.drop_first(), back);
    }
}

/// The bytes between the offsets of two positions are the UTF-8 form of the
/// characters between the positions, and a character begins at each offset.
pub proof fn lemma_bytes_between(text: Seq<char>, from: int, to: int)
    requires
        0 <= from <= to <= text.len(),
    ensures
        byte_offset(text, from) <= byte_offset(text, to) <= byte_len(text),
        is_char_boundary(encode_utf8(text), byte_offset(text, from) as int),
        is_char_boundary(encode_utf8(text), byte_offset(text, to) as int),
        encode_utf8(text).subrange(byte_offset(text, from) as int, byte_offset(text, to) as int)
            == encode_utf8(text.subrange(from, to)),
{
    let head = text.take(from);
    let part = text.subrange(from, to);
    let tail = text.skip(to);
    assert(text.take(to) =~= head + part);
    assert(text =~= text.take(to) + tail);
    assert(text =~= head + text.skip(from));
    lemma_encode_concat(head, part);
    lemma_encode_concat(text.take(to), tail);
    lemma_boundary_between(head, text.skip(from));
    lemma_boundary_between(text.take(to), tail);
    assert(encode_utf8(text).subrange(
        byte_offset(text, from) as int,
        byte_offset(text, to) as int,
    ) =~= encode_utf8(part));
}

/// The length of `text` in bytes.
pub fn text_len(text: &str) -> (len: usize)
    ensures
        len == byte_len(text@),
{
    text.as_bytes().len()
}

/// The characters of `text`, in order.
pub fn chars_of(text: &str) -> (chars: Vec<char>)
    ensures
        chars@ == text@,
{
    let mut chars: Vec<char> = Vec::new();
    for c in it: text.chars()
        invariant
            it.seq() == text@,
            chars@ == text@.take(it.index()),
    {
        chars.push(c);
    }
    chars
}

/// The number of bytes in the UTF-8 form of `c`.
pub fn char_width(c: char) -> (width: usize)
    ensures
        width == byte_len(seq![c]),
        1 <= width <= 4,
{
    let value: u32 = c as u32;
    proof {
        char_is_scalar(c);
        assert(seq![c].drop_first() =~= Seq::<char>::empty());
        assert(encode_utf8(Seq::<char>::empty()) =~= Seq::<u8>::empty());
        assert(encode_utf8(seq![c]) =~= encode_scalar(value));
    }
    if value < 0x80 {
        1
    } else if value < 0x800 {
        2
    } else if value < 0x10000 {
        3
    } else {
        4
    }
}

/// The characters of `text`, and the byte offset of every position in it.
pub fn index_of(text: &str) -> (index: (Vec<char>, Vec<usize>))
    ensures
        index.0@ == text@,
        is_index_of(index.1@, text@),
{
    let len = text_len(text);
    let mut chars: Vec<char> = Vec::new();
    let mut starts: Vec<usize> = Vec::new();
    let mut offset: usize = 0;
    starts.push(0);
    for c in it: text.chars()
        invariant
            it.seq() == text@,
            len == byte_len(text@),
            chars@ == text@.take(it.index()),
            starts.len() == it.index() + 1,
            offset == byte_offset(text@, it.index()),
            forall|i: int| 0 <= i <= it.index() ==> #[trigger] starts@[i] == byte_offset(text@, i),
    {
        let ghost at = it.index();
        let width = char_width(c);
        proof {
            assert(text@.take(at + 1) =~= text@.take(at) + seq![c]);
            lemma_encode_concat(text@.take(at), seq![c]);
            lemma_bytes_between(text@, at, at + 1);
        }
        offset = offset + width;
        chars.push(c);
        starts.push(offset);
    }
    assert(text@.take(text@.len() as int) =~= text@);
    (chars, starts)
}

/// The part of `text` between two positions, found by the byte offsets in
/// `starts`.
pub fn part_between<'a>(text: &'a str, starts: &Vec<usize>, from: usize, to: usize) -> (part:
    &'a str)
    requires
        is_index_of(starts@, text@),
        from <= to <= text@.len(),
    ensures
        part@ == text@.subrange(from as int, to as int),
{
    let low: usize = starts[from];
    let high: usize = starts[to];
    let ghost bytes = text.spec_bytes();
    proof {
        lemma_bytes_between(text@, from as int, to as int);
        encode_utf8_valid_utf8(text@);
        valid_utf8_split(bytes, high as int);
    }
    let (head, _) = text.split_at(high);
    proof {
        let front = bytes.subrange(0, high as int);
        assert(head.spec_bytes() == front);
        lemma_bytes_between(text@.take(to as int), from as int, to as int);
        assert(text@.take(to as int).take(from as int) =~= text@.take(from as int));
        assert(text@.take(to as int).take(to as int) =~= text@.take(to as int));
        lemma_bytes_between(text@, 0, to as int);
        assert(text@.take(0) =~= Seq::<char>::empty());
        assert(text@.subrange(0, to as int) =~= text@.take(to as int));
        assert(front == encode_utf8(text@.take(to as int)));
    }
    let (_, part) = head.split_at(low);
    proof {
        assert(text@.take(to as int).subrange(from as int, to as int) =~= text@.subrange(
            from as int,
            to as int,
        ));
        assert(part.spec_bytes() =~= encode_utf8(text@.subrange(from as int, to as int)));
        encode_utf8_decode_utf8(part@);
        encode_utf8_decode_utf8(text@.subrange(from as int, to as int));
    }
    part
}

/// Whether `pattern` stands in `text` from position `at` on.
pub fn stands_at(text: &Vec<char>, pattern: &Vec<char>, at: usize) -> (found: bool)
    requires
        at + pattern.len() <= text.len(),
    ensures
        found == occurs_at(text@, pattern@, at as int),
{
    let mut k: usize = 0;
    while k < pattern.len()
        invariant
            k <= pattern.len(),
            at + pattern.len() <= text.len(),
            forall|j: int| 0 <= j < k ==> text@[at + j] == pattern@[j],
        decreases pattern.len() - k,
    {
        if text[at + k] != pattern[k] {
            assert(text@.subrange(at as int, at + pattern.len())[k as int] != pattern@[k as int]);
            return false;
        }
        k += 1;
    }
    assert(text@.subrange(at as int, at + pattern.len()) =~= pattern@);
    true
}

/// Cuts `text` at every occurrence of `pattern`.
pub fn split(text: &str, pattern: &str) -> (pieces: Vec<String>)
    ensures
        texts(pieces@) == split_spec(text@, pattern@),
{
    let (chars, starts) = index_of(text);
    let mark = chars_of(pattern);
    let n: usize = chars.len();
    let m: usize = mark.len();
    let mut pieces: Vec<String> = Vec::new();
    if m == 0 {
        pieces.push(String::new());
        let mut i: usize = 0;
        while i < n
            invariant
                i <= n,
                n == text@.len(),
                is_index_of(starts@, text@),
                texts(pieces@) == seq![Seq::<char>::empty()] + Seq::new(
                    i as nat,
                    |j: int| seq![text@[j]],
                ),
            decreases n - i,
        {
            let piece = String::from_str(part_between(text, &starts, i, i + 1));
            assert(piece@ =~= seq![text@[i as int]]);
            let ghost before = texts(pieces@);
            pieces.push(piece);
            assert(texts(pieces@) =~= before + seq![seq![text@[i as int]]]);
            i += 1;
            assert(texts(pieces@) =~= seq![Seq::<char>::empty()] + Seq::new(
                i as nat,
                |j: int| seq![text@[j]],
            ));
        }
        pieces.push(String::new());
        assert(texts(pieces@) =~= pieces_by_char(text@));
        return pieces;
    }
    let mut start: usize = 0;
    let mut at: usize = 0;
    while m <= n && at <= n - m
        invariant
            0 < m == mark@.len(),
            n == text@.len(),
            chars@ == text@,
            is_index_of(starts@, text@),
            mark@ == pattern@,
            start <= at <= n,
            texts(pieces@) + pieces_from(text@, pattern@, start as int, at as int) == split_spec(
                text@,
                pattern@,
            ),
        decreases n - at,
    {
        if stands_at(&chars, &mark, at) {
            let piece = String::from_str(part_between(text, &starts, start, at));
            let ghost before = texts(pieces@);
            pieces.push(piece);
            assert(texts(pieces@) =~= before + seq![text@.subrange(start as int, at as int)]);
            at = at + m;
            start = at;
        } else {
            at = at + 1;
        }
    }
    let piece = String::from_str(part_between(text, &starts, start, n));
    let ghost before = texts(pieces@);
    pieces.push(piece);
    assert(texts(pieces@) =~= before + seq![text@.subrange(start as int, n as int)]);
    pieces
}

/// Puts `pieces` together, with `separator` between each two neighbours.
pub fn join(pieces: &Vec<String>, separator: &str) -> (whole: String)
    ensures
        whole@ == join_spec(texts(pieces@), separator@),
{
    let mut whole = String::new();
    let mut i: usize = 0;
    while i < pieces.len()
        invariant
            i <= pieces.len(),
            whole@ == join_spec(texts(pieces@).take(i as int), separator@),
        decreases pieces.len() - i,
    {
        let ghost upto = texts(pieces@).take(i as int + 1);
        assert(upto.drop_last() =~= texts(pieces@).take(i as int));
        assert(upto.last() == pieces@[i as int]@);
        if i > 0 {
            whole.append(separator);
        }
        whole.append(pieces[i].as_str());
        assert(whole@ =~= join_spec(upto, separator@));
        i += 1;
    }
    assert(texts(pieces@).take(i as int) =~= texts(pieces@));
    whole
}

/// A range of bytes of a text, as [`cut`] hands it back.
#[derive(Debug)]
pub enum Cut<'a> {
    /// The lower bound lies above the upper one.
    Nothing,
    /// A bound falls inside a character's bytes.
    Broken,
    /// The part of the text that the range holds.
    Part(&'a str),
}

impl<'a> View for Cut<'a> {
    type V = CutView;

    open spec fn view(&self) -> CutView {
        match self {
            Cut::Nothing => CutView::Nothing,
            Cut::Broken => CutView::Broken,
            Cut::Part(part) => CutView::Part(part@),
        }
    }
}

/// Takes the bytes `from..to` of `text`, with both bounds brought down to
/// the text's length.
pub fn cut<'a>(text: &'a str, from: usize, to: usize) -> (range: Cut<'a>)
    ensures
        range@ == cut_spec(text@, from as nat, to as nat),
{
    let len = text_len(text);
    let low: usize = if from <= len {
        from
    } else {
        len
    };
    let high: usize = if to <= len {
        to
    } else {
        len
    };
    if low > high {
        return Cut::Nothing;
    }
    if !text.is_char_boundary(low) || !text.is_char_boundary(high) {
        return Cut::Broken;
    }
    let ghost bytes = text.spec_bytes();
    proof {
        encode_utf8_valid_utf8(text@);
        valid_utf8_split(bytes, low as int);
    }
    let (_, tail) = text.split_at(low);
    proof {
        let rest = bytes.subrange(low as int, len as int);
        assert(tail.spec_bytes() == rest);
        if high < len {
            is_char_boundary_iff_not_is_continuation_byte(bytes, high as int);
            is_char_boundary_iff_not_is_continuation_byte(rest, high - low);
        } else {
            is_char_boundary_start_end_of_seq(rest);
        }
    }
    let (part, _) = tail.split_at(high - low);
    proof {
        assert(part.spec_bytes() =~= bytes.subrange(low as int, high as int));
        encode_utf8_decode_utf8(part@);
    }
    Cut::Part(part)
}

} // verus!
