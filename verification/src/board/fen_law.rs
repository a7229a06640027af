use vstd::prelude::*;

verus! {

use crate::board::{Position, piece_on, first_piece_on};
use crate::board::fen::{
    split_spaces, is_digit, digits_value, all_digits, number_digits, is_u32_number, placement, fen_valid,
    castling_parse,
};
use crate::board::fen_out::{
    digit_char, decimal, castling_chars, empty_run, placement_from, placement_step, fen_chars,
};
use crate::chess::color::Color;
use crate::chess::piece::{piece_char, piece_of_index, is_piece_char, piece_from_char};
use crate::chess::square::{square_name, is_square_name, square_of_name, row, col};
use crate::utils::{bit, lemma_bit_ops, lemma_bit_single, lemma_bits_ext};

/// The bytes of a string of ASCII characters, one byte per character.
pub open spec fn ascii_bytes(s: Seq<char>) -> Seq<u8> {
    Seq::new(s.len(), |i: int| s[i] as u8)
}

/// Every character is a printable ASCII character other than the space.
pub open spec fn plain_chars(s: Seq<char>) -> bool {
    forall|i: int| 0 <= i < s.len() ==> 33 <= (#[trigger] s[i]) as u32 && (s[i] as u32) < 127
}

/// No byte is a space.
pub open spec fn no_space(b: Seq<u8>) -> bool {
    forall|i: int| 0 <= i < b.len() ==> #[trigger] b[i] != 32u8
}

/// The bytes of printable characters are those characters' codes, none of them a space.
proof fn lemma_plain_no_space(s: Seq<char>)
    requires
        plain_chars(s),
    ensures
        no_space(ascii_bytes(s)),
        forall|i: int| 0 <= i < s.len() ==> (#[trigger] ascii_bytes(s)[i]) as u32 == s[i] as u32,
{
    assert forall|i: int| 0 <= i < s.len() implies (#[trigger] ascii_bytes(s)[i]) as u32 == s[i] as u32 by {
        let c = s[i];
        let u = c as u32;
        assert(33 <= u < 127);
        assert((c as u8) as u32 == u) by {
            vstd::utf8::char_u32_cast(c, u);
        }
    }
}

/// A field without spaces is the only piece `split_spaces` cuts it into.
proof fn lemma_split_single(b: Seq<u8>)
    requires
        no_space(b),
    ensures
        split_spaces(b) == seq![b],
    decreases b.len(),
{
    if b.len() > 0 {
        lemma_split_single(b.drop_last());
        assert(b.drop_last().push(b.last()) =~= b);
    } else {
        assert(b =~= Seq::<u8>::empty());
    }
}

/// A space followed by a field without spaces adds that field to the pieces.
proof fn lemma_split_append(a: Seq<u8>, b: Seq<u8>)
    requires
        no_space(b),
    ensures
        split_spaces(a + seq![32u8] + b) == split_spaces(a).push(b),
    decreases b.len(),
{
    let s = a + seq![32u8] + b;
    if b.len() == 0 {
        assert(s.drop_last() =~= a);
        assert(b =~= Seq::<u8>::empty());
    } else {
        lemma_split_append(a, b.drop_last());
        assert(s.drop_last() =~= a + seq![32u8] + b.drop_last());
        assert(b.drop_last().push(b.last()) =~= b);
        crate::board::fen::lemma_split_nonempty(a);
        assert(split_spaces(a).push(b.drop_last()).update(split_spaces(a).len() as int, b) =~= split_spaces(a).push(b));
    }
}

/// The decimal digits of a number are printable characters.
proof fn lemma_decimal_plain(n: nat)
    ensures
        plain_chars(decimal(n)),
        decimal(n).len() >= 1,
        forall|i: int| 0 <= i < decimal(n).len() ==> 48 <= (#[trigger] decimal(n)[i]) as u32 <= 57,
    decreases n,
{
    if n >= 10 {
        lemma_decimal_plain(n / 10);
    }
    let d = n % 10;
    let c = digit_char(d);
    assert((c as u32) == 48 + d) by {
        vstd::utf8::char_u32_cast(c, (48 + d) as u32);
    }
}


/// The bytes of a number's decimal digits read back as that number.
proof fn lemma_decimal_value(n: nat)
    ensures
        digits_value(ascii_bytes(decimal(n))) == n,
        all_digits(ascii_bytes(decimal(n))),
        ascii_bytes(decimal(n)).len() >= 1,
    decreases n,
{
    lemma_decimal_plain(n);
    lemma_plain_no_space(decimal(n));
    let b = ascii_bytes(decimal(n));
    if n >= 10 {
        lemma_decimal_value(n / 10);
        lemma_decimal_plain(n / 10);
        lemma_plain_no_space(decimal(n / 10));
        assert(decimal(n) == decimal(n / 10).push(digit_char(n % 10)));
        assert(b.drop_last() =~= ascii_bytes(decimal(n / 10)));
        assert(b.last() as u32 == decimal(n).last() as u32);
        assert(decimal(n).last() as u32 == 48 + n % 10) by {
            vstd::utf8::char_u32_cast(digit_char(n % 10), (48 + n % 10) as u32);
        }
        assert(n == (n / 10) * 10 + n % 10);
        assert(digits_value(b) == digits_value(b.drop_last()) * 10 + (b.last() - 48));
        assert(digits_value(b.drop_last()) == n / 10);
        assert(b.last() - 48 == n % 10);
    } else {
        assert(b.drop_last() =~= Seq::<u8>::empty());
        assert(decimal(n)[0] as u32 == 48 + n) by {
            vstd::utf8::char_u32_cast(digit_char(n), (48 + n) as u32);
        }
        assert(b.len() == 1);
        assert(b[0] as u32 == 48 + n);
        assert(digits_value(b) == digits_value(b.drop_last()) * 10 + (b.last() - 48));
    }
}

/// The written clock fields are numbers that read back as the clocks.
proof fn lemma_number_field(n: u32)
    ensures
        is_u32_number(ascii_bytes(decimal(n as nat))),
        digits_value(number_digits(ascii_bytes(decimal(n as nat)))) == n,
        no_space(ascii_bytes(decimal(n as nat))),
{
    lemma_decimal_value(n as nat);
    lemma_decimal_plain(n as nat);
    lemma_plain_no_space(decimal(n as nat));
    let b = ascii_bytes(decimal(n as nat));
    assert(b[0] != 43u8);
    assert(number_digits(b) == b);
}


/// Adding the rights of a four-bit value one by one, in the order K, Q, k, q, gives the value.
proof fn lemma_rights_by_bits(r: u8) by (bit_vector)
    requires
        r < 16,
    ensures
        ({
            let a1 = if r & 1u8 != 0 { 0u8 | 1u8 } else { 0u8 };
            let a2 = if r & 2u8 != 0 { a1 | 2u8 } else { a1 };
            let a3 = if r & 4u8 != 0 { a2 | 4u8 } else { a2 };
            let a4 = if r & 8u8 != 0 { a3 | 8u8 } else { a3 };
            a4 == r
        }),
        (r == 0) == (r & 1u8 == 0 && r & 2u8 == 0 && r & 4u8 == 0 && r & 8u8 == 0),
{
}

/// The castling field written for `r` reads back as `r`.
proof fn lemma_castling_field(r: u8)
    requires
        r < 16,
    ensures
        castling_parse(ascii_bytes(castling_chars(r)), castling_chars(r).len()).ok,
        castling_parse(ascii_bytes(castling_chars(r)), castling_chars(r).len()).rights == r,
        no_space(ascii_bytes(castling_chars(r))),
{
    lemma_rights_by_bits(r);
    let k = if r & 1u8 != 0 { seq!['K'] } else { Seq::<char>::empty() };
    let q = if r & 2u8 != 0 { seq!['Q'] } else { Seq::<char>::empty() };
    let bk = if r & 4u8 != 0 { seq!['k'] } else { Seq::<char>::empty() };
    let bq = if r & 8u8 != 0 { seq!['q'] } else { Seq::<char>::empty() };
    let none = if r == 0 { seq!['-'] } else { Seq::<char>::empty() };
    let c = castling_chars(r);
    assert(c == k + q + bk + bq + none);
    let b = ascii_bytes(c);
    let n1 = k.len();
    let n2 = n1 + q.len();
    let n3 = n2 + bk.len();
    let n4 = n3 + bq.len();
    let a1: u8 = if r & 1u8 != 0 { 0u8 | 1u8 } else { 0u8 };
    let a2: u8 = if r & 2u8 != 0 { a1 | 2u8 } else { a1 };
    let a3: u8 = if r & 4u8 != 0 { a2 | 4u8 } else { a2 };
    let a4: u8 = if r & 8u8 != 0 { a3 | 8u8 } else { a3 };
    assert(castling_parse(b, 0) == crate::board::fen::CastlingState { ok: true, stopped: false, rights: 0u8 });
    if r & 1u8 != 0 { assert(b[0] == 75u8); }
    assert(castling_parse(b, n1) == crate::board::fen::CastlingState { ok: true, stopped: false, rights: a1 });
    if r & 2u8 != 0 { assert(b[n1 as int] == 81u8); }
    assert(castling_parse(b, n2) == crate::board::fen::CastlingState { ok: true, stopped: false, rights: a2 });
    if r & 4u8 != 0 { assert(b[n2 as int] == 107u8); }
    assert(castling_parse(b, n3) == crate::board::fen::CastlingState { ok: true, stopped: false, rights: a3 });
    if r & 8u8 != 0 { assert(b[n3 as int] == 113u8); }
    assert(castling_parse(b, n4) == crate::board::fen::CastlingState { ok: true, stopped: false, rights: a4 });
    if r == 0 {
        assert(b[n4 as int] == 45u8);
        assert(castling_parse(b, n4 + 1).ok && castling_parse(b, n4 + 1).rights == a4);
    }
    assert(plain_chars(c));
    lemma_plain_no_space(c);
}


/// The en passant field written for a square names that square.
proof fn lemma_square_field(sq: u8)
    requires
        sq < 64,
    ensures
        is_square_name(ascii_bytes(square_name(sq as int))),
        square_of_name(ascii_bytes(square_name(sq as int))) == sq,
        no_space(ascii_bytes(square_name(sq as int))),
{
    let n = square_name(sq as int);
    let f = col(sq as int);
    let r = row(sq as int);
    assert(0 <= f < 8 && 0 <= r < 8);
    assert(n[0] as u32 == 97 + f) by {
        vstd::utf8::char_u32_cast(n[0], (97 + f) as u32);
    }
    assert(n[1] as u32 == 56 - r) by {
        vstd::utf8::char_u32_cast(n[1], (56 - r) as u32);
    }
    assert(plain_chars(n));
    lemma_plain_no_space(n);
    assert(sq == r * 8 + f);
}


/// No two piece bitboards share a square.
pub open spec fn boards_disjoint(bb: Seq<u64>) -> bool {
    forall|k1: int, k2: int, j: u64|
        0 <= k1 < 12 && 0 <= k2 < 12 && k1 != k2 && j < 64 ==> !(#[trigger] bit(bb[k1], j) && #[trigger] bit(bb[k2], j))
}

/// The byte of each piece's letter is read as that piece.
proof fn lemma_piece_byte(k: int)
    requires
        0 <= k < 12,
    ensures
        ({
            let c = piece_char(piece_of_index(k));
            let b = c as u8;
            &&& 33 <= c as u32 && (c as u32) < 127
            &&& b as u32 == c as u32
            &&& b != 47u8 && !is_digit(b)
            &&& is_piece_char(b as char) && b != 46u8
            &&& piece_from_char(b as char)@ == k
        }),
{
    let c = piece_char(piece_of_index(k));
    vstd::utf8::char_u32_cast(c, c as u32);
}

/// The first of the boards `start..end` holding a square is the one board there holding it.
proof fn lemma_first_piece_on(bb: Seq<u64>, sq: u64, start: int, end: int, k: int)
    requires
        0 <= start <= k < end <= 12,
        bb.len() == 12,
        bit(bb[k], sq),
        forall|k2: int| start <= k2 < end && k2 != k ==> !#[trigger] bit(bb[k2], sq),
    ensures
        first_piece_on(bb, sq, start, end) == piece_of_index(k),
    decreases k - start,
{
    if start < k {
        lemma_first_piece_on(bb, sq, start + 1, end, k);
    }
}

/// Which board, if any, holds square `i` of a position with consistent occupancies and
/// disjoint boards, and the piece `piece_on` finds there.
proof fn lemma_square_piece(p: Position, i: u64) -> (k: int)
    requires
        p.occupancies_consistent(),
        boards_disjoint(p.bitboards@),
        i < 64,
    ensures
        !bit(p.occupancies[2], i) ==> forall|k2: int| 0 <= k2 < 12 ==> !#[trigger] bit(p.bitboards@[k2], i),
        bit(p.occupancies[2], i) ==> {
            &&& 0 <= k < 12
            &&& bit(p.bitboards@[k], i)
            &&& piece_on(p.bitboards@, p.occupancies[0], i) == piece_of_index(k)
            &&& forall|k2: int| 0 <= k2 < 12 && k2 != k ==> !#[trigger] bit(p.bitboards@[k2], i)
        },
{
    let bb = p.bitboards@;
    lemma_bit_ops(bb[0], bb[1], i);
    lemma_bit_ops(bb[0] | bb[1], bb[2], i);
    lemma_bit_ops(bb[0] | bb[1] | bb[2], bb[3], i);
    lemma_bit_ops(bb[0] | bb[1] | bb[2] | bb[3], bb[4], i);
    lemma_bit_ops(bb[0] | bb[1] | bb[2] | bb[3] | bb[4], bb[5], i);
    lemma_bit_ops(bb[6], bb[7], i);
    lemma_bit_ops(bb[6] | bb[7], bb[8], i);
    lemma_bit_ops(bb[6] | bb[7] | bb[8], bb[9], i);
    lemma_bit_ops(bb[6] | bb[7] | bb[8] | bb[9], bb[10], i);
    lemma_bit_ops(bb[6] | bb[7] | bb[8] | bb[9] | bb[10], bb[11], i);
    lemma_bit_ops(p.occupancies[0], p.occupancies[1], i);
    if !bit(p.occupancies[2], i) {
        assert forall|k2: int| 0 <= k2 < 12 implies !#[trigger] bit(bb[k2], i) by {
            if k2 == 0 {} else if k2 == 1 {} else if k2 == 2 {} else if k2 == 3 {} else if k2 == 4 {}
            else if k2 == 5 {} else if k2 == 6 {} else if k2 == 7 {} else if k2 == 8 {} else if k2 == 9 {}
            else if k2 == 10 {} else {}
        }
        0
    } else {
        let k = choose|k: int| 0 <= k < 12 && bit(bb[k], i);
        assert(exists|k: int| 0 <= k < 12 && bit(bb[k], i)) by {
            if bit(bb[0], i) { assert(bit(bb[0], i)); }
            else if bit(bb[1], i) { assert(bit(bb[1], i)); }
            else if bit(bb[2], i) { assert(bit(bb[2], i)); }
            else if bit(bb[3], i) { assert(bit(bb[3], i)); }
            else if bit(bb[4], i) { assert(bit(bb[4], i)); }
            else if bit(bb[5], i) { assert(bit(bb[5], i)); }
            else if bit(bb[6], i) { assert(bit(bb[6], i)); }
            else if bit(bb[7], i) { assert(bit(bb[7], i)); }
            else if bit(bb[8], i) { assert(bit(bb[8], i)); }
            else if bit(bb[9], i) { assert(bit(bb[9], i)); }
            else if bit(bb[10], i) { assert(bit(bb[10], i)); }
            else { assert(bit(bb[11], i)); }
        }
        assert forall|k2: int| 0 <= k2 < 12 && k2 != k implies !#[trigger] bit(bb[k2], i) by {
            if bit(bb[k2], i) {
                assert(bit(bb[k], i) && bit(bb[k2], i));
            }
        }
        if k < 6 {
            assert(bit(p.occupancies[0], i)) by {
                if k == 0 {} else if k == 1 {} else if k == 2 {} else if k == 3 {} else if k == 4 {} else {}
            }
            lemma_first_piece_on(bb, i, 0, 6, k);
        } else {
            assert(!bit(p.occupancies[0], i));
            lemma_first_piece_on(bb, i, 6, 12, k);
        }
        k
    }
}


/// The boards read so far hold exactly the squares below `i` of the position's boards.
pub open spec fn read_upto(boards: Seq<u64>, bb: Seq<u64>, i: int) -> bool {
    &&& boards.len() == 12
    &&& forall|k: int, j: u64| 0 <= k < 12 && j < 64 ==> (#[trigger] bit(boards[k], j) == (j < i && bit(bb[k], j)))
}

/// Reading a digit `e` moves the reader `e` squares on.
proof fn lemma_read_digit(sb: Seq<u8>, n: nat, e: nat)
    requires
        n < sb.len(),
        placement(sb, n).ok,
        1 <= e <= 8,
        sb[n as int] as int == 48 + e,
        0 <= placement(sb, n).pos <= 64,
    ensures
        placement(sb, n + 1).ok,
        placement(sb, n + 1).pos == placement(sb, n).pos + e,
        placement(sb, n + 1).boards == placement(sb, n).boards,
{
}

/// Reading '/' changes nothing.
proof fn lemma_read_slash(sb: Seq<u8>, n: nat)
    requires
        n < sb.len(),
        placement(sb, n).ok,
        sb[n as int] == 47u8,
    ensures
        placement(sb, n + 1) == placement(sb, n),
{
}

/// Reading the letter of piece `k` puts it on the reader's square and moves on.
proof fn lemma_read_piece(sb: Seq<u8>, n: nat, k: int)
    requires
        n < sb.len(),
        placement(sb, n).ok,
        0 <= k < 12,
        sb[n as int] == piece_char(piece_of_index(k)) as u8,
        0 <= placement(sb, n).pos < 64,
        placement(sb, n).boards.len() == 12,
    ensures
        placement(sb, n + 1).ok,
        placement(sb, n + 1).pos == placement(sb, n).pos + 1,
        placement(sb, n + 1).boards == placement(sb, n).boards.update(k,
            placement(sb, n).boards[k] | (1u64 << (placement(sb, n).pos as u64))),
{
    lemma_piece_byte(k);
}

/// The one digit of a count of empty squares.
proof fn lemma_run_digit(e: nat)
    requires
        1 <= e <= 8,
    ensures
        empty_run(e) == seq![digit_char(e)],
        digit_char(e) as u32 == 48 + e,
        (digit_char(e) as u8) as int == 48 + e,
        plain_chars(empty_run(e)),
{
    vstd::utf8::char_u32_cast(digit_char(e), (48 + e) as u32);
}


/// The bound on the count of empty squares pending before square `i`.
pub open spec fn pending_ok(i: nat, e: nat) -> bool {
    &&& e <= 8
    &&& e <= i
    &&& i % 8 != 0 ==> e <= i % 8
}

/// The reader, run on the written placement, reaches the end with every board read in full.
proof fn lemma_placement_reads(p: Position, i: nat, e: nat, w: Seq<char>)
    requires
        p.occupancies_consistent(),
        boards_disjoint(p.bitboards@),
        i <= 64,
        pending_ok(i, e),
        w + placement_from(p, i, e) == placement_from(p, 0, 0),
        plain_chars(w),
        placement(ascii_bytes(placement_from(p, 0, 0)), w.len()).ok,
        placement(ascii_bytes(placement_from(p, 0, 0)), w.len()).pos == i - e,
        read_upto(placement(ascii_bytes(placement_from(p, 0, 0)), w.len()).boards, p.bitboards@, i as int),
    ensures
        plain_chars(placement_from(p, 0, 0)),
        placement(ascii_bytes(placement_from(p, 0, 0)), placement_from(p, 0, 0).len()).ok,
        placement(ascii_bytes(placement_from(p, 0, 0)), placement_from(p, 0, 0).len()).pos == 64,
        read_upto(placement(ascii_bytes(placement_from(p, 0, 0)), placement_from(p, 0, 0).len()).boards,
            p.bitboards@, 64),
    decreases 64 - i,
{
    let s = placement_from(p, 0, 0);
    let sb = ascii_bytes(s);
    let n0 = w.len();
    let bb = p.bitboards@;
    if i >= 64 {
        let rest = empty_run(e);
        assert(placement_from(p, i, e) == rest);
        if e == 0 {
            assert(w =~= s);
        } else {
            lemma_run_digit(e);
            assert(s[n0 as int] == digit_char(e));
            lemma_read_digit(sb, n0, e);
            assert(s.len() == n0 + 1);
            assert forall|x: int| 0 <= x < s.len() implies 33 <= (#[trigger] s[x]) as u32 && (s[x] as u32) < 127 by {
                if x < n0 {
                    assert(s[x] == w[x]);
                }
            }
        }
        return;
    }
    let at_rank_start = i % 8 == 0 && i != 0;
    let prefix = if at_rank_start { empty_run(e).push('/') } else { Seq::<char>::empty() };
    let e0: nat = if at_rank_start { 0 } else { e };
    let step = placement_step(p, i, e);
    let rest = placement_from(p, (i + 1) as nat, step.1);
    assert(placement_from(p, i, e) =~= step.0 + rest);
    assert(s =~= w + step.0 + rest);
    // The prefix: the count left from the rank before and the rank separator.
    let n1: nat = n0 + prefix.len();
    if at_rank_start {
        if e > 0 {
            lemma_run_digit(e);
            assert(s[n0 as int] == step.0[0]);
            lemma_read_digit(sb, n0, e);
            assert(s[n0 + 1int] == '/');
            lemma_read_slash(sb, (n0 + 1) as nat);
        } else {
            assert(empty_run(e) =~= Seq::<char>::empty());
            assert(s[n0 as int] == '/');
            lemma_read_slash(sb, n0);
        }
    }
    assert(placement(sb, n1).ok);
    assert(placement(sb, n1).pos == i - e0);
    assert(placement(sb, n1).boards == placement(sb, n0).boards);
    let k = lemma_square_piece(p, i as u64);
    let st1 = placement(sb, n1);
    let n2: nat = n0 + step.0.len();
    if !bit(p.occupancies[2], i as u64) {
        assert(step.0 == prefix);
        assert(step.1 == e0 + 1);
        assert forall|k2: int, j: u64| 0 <= k2 < 12 && j < 64 implies
            (#[trigger] bit(st1.boards[k2], j) == (j < i + 1 && bit(bb[k2], j))) by {
            assert(bit(st1.boards[k2], j) == (j < i && bit(bb[k2], j)));
        }
    } else {
        let run = empty_run(e0);
        let pc = piece_char(piece_on(bb, p.occupancies[0], i as u64));
        assert(step.0 == prefix + run.push(pc));
        assert(step.1 == 0);
        let n_run: nat = n1 + run.len();
        if e0 > 0 {
            lemma_run_digit(e0);
            assert(s[n1 as int] == digit_char(e0));
            lemma_read_digit(sb, n1, e0);
        } else {
            assert(run =~= Seq::<char>::empty());
        }
        assert(placement(sb, n_run).pos == i);
        assert(placement(sb, n_run).boards == st1.boards);
        assert(s[n_run as int] == pc);
        assert(pc == piece_char(piece_of_index(k)));
        lemma_read_piece(sb, n_run, k);
        assert(n2 == n_run + 1);
        let st2 = placement(sb, n2);
        assert forall|k2: int, j: u64| 0 <= k2 < 12 && j < 64 implies
            (#[trigger] bit(st2.boards[k2], j) == (j < i + 1 && bit(bb[k2], j))) by {
            assert(bit(st1.boards[k2], j) == (j < i && bit(bb[k2], j)));
            if k2 == k {
                lemma_bit_ops(st1.boards[k], 1u64 << (i as u64), j);
                lemma_bit_single(j, i as u64);
            }
        }
        lemma_piece_byte(k);
    }
    let w2 = w + step.0;
    assert(w2 + rest =~= s);
    assert forall|x: int| 0 <= x < w2.len() implies 33 <= (#[trigger] w2[x]) as u32 && (w2[x] as u32) < 127 by {
        if x < n0 {
            assert(w2[x] == w[x]);
        } else {
            if at_rank_start && e > 0 {
                lemma_run_digit(e);
            }
            if bit(p.occupancies[2], i as u64) {
                lemma_piece_byte(k);
                if e0 > 0 {
                    lemma_run_digit(e0);
                }
            }
        }
    }
    lemma_placement_reads(p, (i + 1) as nat, step.1, w2);
}


/// The placement written depends on the piece boards and the occupancies alone.
proof fn lemma_placement_agree(p: Position, q: Position, i: nat, e: nat)
    requires
        p.bitboards@ == q.bitboards@,
        p.occupancies[0] == q.occupancies[0],
        p.occupancies[2] == q.occupancies[2],
    ensures
        placement_from(p, i, e) == placement_from(q, i, e),
    decreases 64 - i,
{
    if i < 64 {
        lemma_placement_agree(p, q, i + 1, e + 1);
        lemma_placement_agree(p, q, i + 1, 1);
        lemma_placement_agree(p, q, i + 1, 0);
    }
}

/// The written placement holds printable characters only, and reading it gives back the
/// piece boards.
proof fn lemma_placement_field(p: Position)
    requires
        p.occupancies_consistent(),
        boards_disjoint(p.bitboards@),
    ensures
        plain_chars(placement_from(p, 0, 0)),
        placement(ascii_bytes(placement_from(p, 0, 0)), placement_from(p, 0, 0).len()).ok,
        placement(ascii_bytes(placement_from(p, 0, 0)), placement_from(p, 0, 0).len()).boards
            == p.bitboards@,
{
    let s = placement_from(p, 0, 0);
    let sb = ascii_bytes(s);
    let st0 = placement(sb, 0);
    assert forall|k: int, j: u64| 0 <= k < 12 && j < 64 implies
        (#[trigger] bit(st0.boards[k], j) == (j < 0 && bit(p.bitboards@[k], j))) by {
        lemma_bit_ops(0u64, 0u64, j);
    }
    assert(Seq::<char>::empty() + s =~= s);
    lemma_placement_reads(p, 0, 0, Seq::<char>::empty());
    let st = placement(sb, s.len());
    assert forall|k: int| 0 <= k < 12 implies #[trigger] st.boards[k] == p.bitboards@[k] by {
        assert forall|j: u64| j < 64 implies bit(st.boards[k], j) == bit(p.bitboards@[k], j) by {
            assert(bit(st.boards[k], j) == (j < 64 && bit(p.bitboards@[k], j)));
        }
        lemma_bits_ext(st.boards[k], p.bitboards@[k]);
    }
    assert(st.boards =~= p.bitboards@);
}

/// `as_fen` is the inverse of `set_fen` on the FEN strings `as_fen` writes. For a position
/// whose occupancies agree with its piece boards, whose piece boards share no square, with an
/// en passant square on the board and castling rights in four bits: the bytes of its FEN string
/// (each character ASCII) are a FEN the reader accepts, a position that holds them has the
/// same boards, side to move, castling rights, en passant square and clocks, and the FEN of
/// that position, when its occupancies agree with its boards, is the same string.
pub proof fn law_fen_round_trip(p: Position, q: Position)
    requires
        p.occupancies_consistent(),
        boards_disjoint(p.bitboards@),
        p.enpassant matches Some(s) ==> s < 64,
        p.castling@ < 16,
        q.holds_fen(ascii_bytes(fen_chars(p))),
    ensures
        fen_valid(ascii_bytes(fen_chars(p))),
        q.bitboards@ == p.bitboards@,
        q.turn == p.turn,
        q.castling@ == p.castling@,
        q.enpassant == p.enpassant,
        q.halfmove_clock == p.halfmove_clock,
        q.fullmove_number == p.fullmove_number,
        q.occupancies_consistent() ==> fen_chars(q) == fen_chars(p),
{
    let pl = placement_from(p, 0, 0);
    let t = if p.turn == Color::White { 'w' } else { 'b' };
    let c = castling_chars(p.castling@);
    let ep = match p.enpassant { Some(s) => square_name(s as int), None => seq!['-'] };
    let h = decimal(p.halfmove_clock as nat);
    let fm = decimal(p.fullmove_number as nat);
    let sp = seq![' '];
    let a1 = pl;
    let a2 = a1 + sp + seq![t];
    let a3 = a2 + sp + c;
    let a4 = a3 + sp + ep;
    let a5 = a4 + sp + h;
    let a6 = a5 + sp + fm;
    assert(fen_chars(p) =~= a6);
    lemma_placement_field(p);
    lemma_castling_field(p.castling@);
    lemma_number_field(p.halfmove_clock);
    lemma_number_field(p.fullmove_number);
    match p.enpassant {
        Some(s) => { lemma_square_field(s); },
        None => {
            assert(plain_chars(ep));
            lemma_plain_no_space(ep);
        },
    }
    assert(plain_chars(seq![t]));
    lemma_plain_no_space(seq![t]);
    lemma_plain_no_space(pl);
    let bsp = seq![32u8];
    assert(ascii_bytes(sp) =~= bsp);
    assert(ascii_bytes(a2) =~= ascii_bytes(a1) + bsp + ascii_bytes(seq![t]));
    assert(ascii_bytes(a3) =~= ascii_bytes(a2) + bsp + ascii_bytes(c));
    assert(ascii_bytes(a4) =~= ascii_bytes(a3) + bsp + ascii_bytes(ep));
    assert(ascii_bytes(a5) =~= ascii_bytes(a4) + bsp + ascii_bytes(h));
    assert(ascii_bytes(a6) =~= ascii_bytes(a5) + bsp + ascii_bytes(fm));
    lemma_split_single(ascii_bytes(a1));
    lemma_split_append(ascii_bytes(a1), ascii_bytes(seq![t]));
    lemma_split_append(ascii_bytes(a2), ascii_bytes(c));
    lemma_split_append(ascii_bytes(a3), ascii_bytes(ep));
    lemma_split_append(ascii_bytes(a4), ascii_bytes(h));
    lemma_split_append(ascii_bytes(a5), ascii_bytes(fm));
    let f = crate::board::fen::split_spaces(ascii_bytes(fen_chars(p)));
    assert(f =~= seq![ascii_bytes(pl), ascii_bytes(seq![t]), ascii_bytes(c), ascii_bytes(ep), ascii_bytes(h),
        ascii_bytes(fm)]);
    assert(f[1][0] == t as u8);
    assert(ascii_bytes(pl).len() == pl.len());
    match p.enpassant {
        Some(s) => {
            assert(f[3].len() == 2);
            assert(f[3] != seq![45u8]);
        },
        None => {
            assert(f[3] =~= seq![45u8]);
        },
    }
    assert(q.bitboards@ =~= p.bitboards@);
    if q.occupancies_consistent() {
        lemma_placement_agree(p, q, 0, 0);
        assert(fen_chars(q) =~= fen_chars(p));
    }
}

} // verus!
