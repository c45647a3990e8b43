//! What an anchor tells apart: every character of every changed line counts.

use crate::diff::{HunkModel, LineKind, RowModel};
use vstd::prelude::*;

verus! {

/// The additions and deletions among `rows`, with their texts.
pub open spec fn changed_lines(rows: Seq<RowModel>) -> Seq<(LineKind, Seq<char>)> {
    rows.filter(|r: RowModel| r.kind != LineKind::Ctx).map_values(
        |r: RowModel| (r.kind, r.text),
    )
}

/// No text holds a line feed.
pub open spec fn on_one_line_each(rows: Seq<RowModel>) -> bool {
    forall|i: int| 0 <= i < rows.len() ==> !(#[trigger] rows[i]).text.contains('\n')
}

/// The changes of a hunk are its added and deleted lines, all of them, in order.
pub proof fn changes_are_the_changed_lines(rows: Seq<RowModel>)
    ensures
        crate::diff::changes(rows) == changed_lines(rows),
    decreases rows.len(),
{
    let keep = |r: RowModel| r.kind != LineKind::Ctx;
    let take = |r: RowModel| (r.kind, r.text);
    reveal(Seq::filter);
    if rows.len() > 0 {
        let init = rows.drop_last();
        changes_are_the_changed_lines(init);
        if keep(rows.last()) {
            assert(rows.filter(keep) == init.filter(keep).push(rows.last()));
            assert(init.filter(keep).push(rows.last()).map_values(take) == init.filter(
                keep,
            ).map_values(take).push(take(rows.last())));
        } else {
            assert(rows.filter(keep) == init.filter(keep));
        }
    } else {
        assert(rows.filter(keep).map_values(take) == Seq::<(LineKind, Seq<char>)>::empty());
    }
}

proof fn lemma_scalar_without_feed(c: char, i: int)
    requires
        c != '\n',
        0 <= i < vstd::utf8::encode_scalar(c as u32).len(),
    ensures
        vstd::utf8::encode_scalar(c as u32)[i] != 0x0a,
{
    let u = c as u32;
    assert(u != 10);
    assert(u <= 0x7f && u != 10 ==> vstd::utf8::leading_byte_width_1(u) != 0x0a) by (bit_vector);
    assert(vstd::utf8::leading_byte_width_2(u) != 0x0a) by (bit_vector);
    assert(vstd::utf8::leading_byte_width_3(u) != 0x0a) by (bit_vector);
    assert(vstd::utf8::leading_byte_width_4(u) != 0x0a) by (bit_vector);
    assert(vstd::utf8::last_continuation_byte(u) != 0x0a) by (bit_vector);
    assert(vstd::utf8::second_last_continuation_byte(u) != 0x0a) by (bit_vector);
    assert(vstd::utf8::third_last_continuation_byte(u) != 0x0a) by (bit_vector);
}

proof fn lemma_bytes_without_feed(s: Seq<char>, i: int)
    requires
        !s.contains('\n'),
        0 <= i < vstd::utf8::encode_utf8(s).len(),
    ensures
        vstd::utf8::encode_utf8(s)[i] != 0x0a,
    decreases s.len(),
{
    if s.len() > 0 {
        let first = vstd::utf8::encode_scalar(s[0] as u32);
        let t = s.drop_first();
        assert(s.contains(s[0]));
        assert(!t.contains('\n')) by {
            if t.contains('\n') {
                let k = choose|k: int| 0 <= k < t.len() && t[k] == '\n';
                assert(s[k + 1] == '\n');
            }
        }
        if i < first.len() {
            lemma_scalar_without_feed(s[0], i);
        } else {
            lemma_bytes_without_feed(t, i - first.len());
        }
    }
}

/// A change of a line, and no line feed in it.
spec fn plain_change(c: (LineKind, Seq<char>)) -> bool {
    c.0 != LineKind::Ctx && !c.1.contains('\n')
}

proof fn lemma_bytes_end(ch: Seq<(LineKind, Seq<char>)>)
    requires
        ch.len() > 0,
    ensures
        crate::diff::change_bytes(ch).len() > 0,
        crate::diff::change_bytes(ch).last() == 0x0a,
{
}

proof fn lemma_bytes_determine(a: Seq<(LineKind, Seq<char>)>, b: Seq<(LineKind, Seq<char>)>)
    requires
        forall|i: int| 0 <= i < a.len() ==> plain_change(#[trigger] a[i]),
        forall|i: int| 0 <= i < b.len() ==> plain_change(#[trigger] b[i]),
        crate::diff::change_bytes(a) == crate::diff::change_bytes(b),
    ensures
        a == b,
    decreases a.len(),
{
    if a.len() == 0 || b.len() == 0 {
        if a.len() > 0 {
            lemma_bytes_end(a);
        }
        if b.len() > 0 {
            lemma_bytes_end(b);
        }
        assert(a == b);
    } else {
        let x = crate::diff::change_bytes(a.drop_last());
        let y = crate::diff::change_bytes(b.drop_last());
        let e = vstd::utf8::encode_utf8(a.last().1);
        let f = vstd::utf8::encode_utf8(b.last().1);
        let s = crate::diff::sign(a.last().0);
        let t = crate::diff::sign(b.last().0);
        let whole = crate::diff::change_bytes(a);
        assert(plain_change(a[a.len() - 1]) && plain_change(b[b.len() - 1]));
        assert(whole == x.push(s) + e + seq![0x0au8]);
        assert(whole == y.push(t) + f + seq![0x0au8]);
        if x.len() < y.len() {
            lemma_bytes_end(b.drop_last());
            let k = y.len() - 1;
            assert(whole[k] == 0x0a);
            assert(whole[k] == x.push(s)[k] || whole[k] == e[k - x.len() - 1]);
            if k > x.len() {
                lemma_bytes_without_feed(a.last().1, k - x.len() - 1);
            }
            assert(false);
        }
        if y.len() < x.len() {
            lemma_bytes_end(a.drop_last());
            let k = x.len() - 1;
            assert(whole[k] == 0x0a);
            assert(whole[k] == y.push(t)[k] || whole[k] == f[k - y.len() - 1]);
            if k > y.len() {
                lemma_bytes_without_feed(b.last().1, k - y.len() - 1);
            }
            assert(false);
        }
        let n = x.len() as int;
        assert(x == whole.take(n) && y == whole.take(n));
        assert(s == whole[n] && t == whole[n]);
        assert(e == whole.subrange(n + 1, whole.len() - 1));
        assert(f == whole.subrange(n + 1, whole.len() - 1));
        vstd::utf8::encode_utf8_decode_utf8(a.last().1);
        vstd::utf8::encode_utf8_decode_utf8(b.last().1);
        assert(a.last() == b.last());
        assert forall|i: int| 0 <= i < a.drop_last().len() implies plain_change(
            #[trigger] a.drop_last()[i],
        ) by {
            assert(plain_change(a[i]));
        }
        assert forall|i: int| 0 <= i < b.drop_last().len() implies plain_change(
            #[trigger] b.drop_last()[i],
        ) by {
            assert(plain_change(b[i]));
        }
        lemma_bytes_determine(a.drop_last(), b.drop_last());
        assert(a == a.drop_last().push(a.last()));
        assert(b == b.drop_last().push(b.last()));
    }
}

proof fn lemma_changed_lines_plain(rows: Seq<RowModel>)
    requires
        on_one_line_each(rows),
    ensures
        forall|i: int|
            0 <= i < changed_lines(rows).len() ==> plain_change(#[trigger] changed_lines(rows)[i]),
    decreases rows.len(),
{
    let keep = |r: RowModel| r.kind != LineKind::Ctx;
    reveal(Seq::filter);
    if rows.len() > 0 {
        let init = rows.drop_last();
        assert forall|i: int| 0 <= i < init.len() implies !(#[trigger] init[i]).text.contains(
            '\n',
        ) by {
            assert(init[i] == rows[i]);
        }
        lemma_changed_lines_plain(init);
        assert(!rows[rows.len() - 1].text.contains('\n'));
        assert forall|i: int| 0 <= i < changed_lines(rows).len() implies plain_change(
            #[trigger] changed_lines(rows)[i],
        ) by {
            if keep(rows.last()) {
                assert(rows.filter(keep) == init.filter(keep).push(rows.last()));
                if i < init.filter(keep).len() {
                    assert(changed_lines(rows)[i] == changed_lines(init)[i]);
                }
            } else {
                assert(rows.filter(keep) == init.filter(keep));
                assert(changed_lines(rows)[i] == changed_lines(init)[i]);
            }
        }
    }
}

/// What an anchor hashes determines the changes: hunks with the same hashed
/// bytes have the same added and deleted lines, character by character.
pub proof fn hashed_bytes_determine_the_changes(a: Seq<RowModel>, b: Seq<RowModel>)
    requires
        on_one_line_each(a),
        on_one_line_each(b),
        crate::diff::change_bytes(crate::diff::changes(a)) == crate::diff::change_bytes(
            crate::diff::changes(b),
        ),
    ensures
        changed_lines(a) == changed_lines(b),
{
    changes_are_the_changed_lines(a);
    changes_are_the_changed_lines(b);
    lemma_changed_lines_plain(a);
    lemma_changed_lines_plain(b);
    lemma_bytes_determine(changed_lines(a), changed_lines(b));
}

/// The bytes of the changed lines as they stand in a patch: each line behind its
/// sign, with a line feed.
pub open spec fn patch_bytes(lines: Seq<(LineKind, Seq<char>)>) -> Seq<u8>
    decreases lines.len(),
{
    if lines.len() == 0 {
        Seq::empty()
    } else {
        patch_bytes(lines.drop_last()) + vstd::utf8::encode_utf8(
            seq![if lines.last().0 == LineKind::Add { '+' } else { '-' }] + lines.last().1
                + seq!['\n'],
        )
    }
}

proof fn lemma_ascii_scalar(c: char)
    requires
        (c as u32) < 128,
    ensures
        vstd::utf8::encode_scalar(c as u32) == seq![c as u8],
{
    let u = c as u32;
    assert(u < 128 ==> vstd::utf8::leading_byte_width_1(u) == u as u8) by (bit_vector);
    vstd::utf8::char_u32_cast(c, u);
    assert(vstd::utf8::encode_scalar(u) =~= seq![c as u8]);
}

proof fn lemma_encode_push(s: Seq<char>, c: char)
    ensures
        vstd::utf8::encode_utf8(s.push(c)) == vstd::utf8::encode_utf8(s)
            + vstd::utf8::encode_scalar(c as u32),
    decreases s.len(),
{
    let none = Seq::<u8>::empty();
    if s.len() == 0 {
        assert(s.push(c).drop_first() == Seq::<char>::empty());
        assert(vstd::utf8::encode_utf8(Seq::<char>::empty()) == none);
        assert(vstd::utf8::encode_scalar(c as u32) + none == none + vstd::utf8::encode_scalar(
            c as u32,
        ));
    } else {
        lemma_encode_push(s.drop_first(), c);
        assert(s.push(c).drop_first() == s.drop_first().push(c));
        assert(vstd::utf8::encode_utf8(s.push(c)) == vstd::utf8::encode_utf8(s)
            + vstd::utf8::encode_scalar(c as u32));
    }
}

proof fn lemma_patch_bytes(lines: Seq<(LineKind, Seq<char>)>)
    ensures
        crate::diff::change_bytes(lines) == patch_bytes(lines),
    decreases lines.len(),
{
    if lines.len() > 0 {
        let mark: char = if lines.last().0 == LineKind::Add {
            '+'
        } else {
            '-'
        };
        let text = lines.last().1;
        let line = seq![mark] + text + seq!['\n'];
        lemma_patch_bytes(lines.drop_last());
        assert(line == (seq![mark] + text).push('\n'));
        lemma_encode_push(seq![mark] + text, '\n');
        assert((seq![mark] + text).drop_first() == text);
        lemma_ascii_scalar(mark);
        lemma_ascii_scalar('\n');
        assert(crate::diff::change_bytes(lines) == patch_bytes(lines));
    }
}

/// Multiplying by the odd factor of the hash loses nothing.
proof fn lemma_factor(x: u64, y: u64)
    requires
        (x as int * 0x100000001b3) % 0x1_0000_0000_0000_0000 == (y as int * 0x100000001b3)
            % 0x1_0000_0000_0000_0000,
    ensures
        x == y,
{
    lemma_factor_undone(x as int);
    lemma_factor_undone(y as int);
}

proof fn lemma_factor_undone(x: int)
    requires
        0 <= x < 0x1_0000_0000_0000_0000,
    ensures
        (((x * 0x100000001b3) % 0x1_0000_0000_0000_0000) * 0xce965057aff6957b)
            % 0x1_0000_0000_0000_0000 == x,
{
    let m: int = 0x1_0000_0000_0000_0000;
    let p: int = 0x100000001b3;
    let q: int = 0xce965057aff6957b;
    let k: int = 887285111055;
    vstd::arithmetic::div_mod::lemma_mul_mod_noop_left(x * p, q, m);
    assert(p * q == k * m + 1) by (nonlinear_arith)
        requires
            p == 0x100000001b3,
            q == 0xce965057aff6957b,
            k == 887285111055,
            m == 0x1_0000_0000_0000_0000,
    ;
    assert(x * p * q == (x * k) * m + x) by (nonlinear_arith)
        requires
            p * q == k * m + 1,
    ;
    vstd::arithmetic::div_mod::lemma_fundamental_div_mod_converse(x * p * q, m, x * k, x);
}

proof fn lemma_step_apart(g: u64, h: u64, byte: u8)
    requires
        g != h,
    ensures
        crate::diff::fnv_step(g, byte) != crate::diff::fnv_step(h, byte),
{
    let b = byte as u64;
    assert(g != h ==> g ^ b != h ^ b) by (bit_vector);
    if crate::diff::fnv_step(g, byte) == crate::diff::fnv_step(h, byte) {
        lemma_factor(g ^ b, h ^ b);
    }
}

proof fn lemma_byte_apart(h: u64, x: u8, y: u8)
    requires
        x != y,
    ensures
        crate::diff::fnv_step(h, x) != crate::diff::fnv_step(h, y),
{
    let a = x as u64;
    let b = y as u64;
    assert(a != b ==> h ^ a != h ^ b) by (bit_vector);
    if crate::diff::fnv_step(h, x) == crate::diff::fnv_step(h, y) {
        lemma_factor(h ^ a, h ^ b);
    }
}

/// Two byte strings that differ in one place.
pub open spec fn differ_in_one_place(a: Seq<u8>, b: Seq<u8>, i: int) -> bool {
    &&& a.len() == b.len()
    &&& 0 <= i < a.len()
    &&& a[i] != b[i]
    &&& forall|k: int| 0 <= k < a.len() && k != i ==> #[trigger] a[k] == b[k]
}

proof fn lemma_hash_apart(a: Seq<u8>, b: Seq<u8>, i: int)
    requires
        differ_in_one_place(a, b, i),
    ensures
        crate::diff::fnv(a) != crate::diff::fnv(b),
    decreases a.len(),
{
    if i == a.len() - 1 {
        assert(a.drop_last() == b.drop_last());
        lemma_byte_apart(crate::diff::fnv(a.drop_last()), a.last(), b.last());
    } else {
        let x = a.drop_last();
        let y = b.drop_last();
        assert forall|k: int| 0 <= k < x.len() && k != i implies #[trigger] x[k] == y[k] by {
            assert(a[k] == b[k]);
        }
        assert(x[i] == a[i] && y[i] == b[i]);
        lemma_hash_apart(x, y, i);
        assert(a[a.len() - 1] == b[a.len() - 1]);
        lemma_step_apart(crate::diff::fnv(x), crate::diff::fnv(y), a.last());
    }
}

/// How many numbers have `k` hexadecimal digits or fewer.
spec fn hex_limit(k: nat) -> nat
    decreases k,
{
    if k == 0 {
        1
    } else {
        16 * hex_limit((k - 1) as nat)
    }
}

proof fn lemma_hex_apart(n: nat, m: nat, k: nat)
    requires
        n < hex_limit(k),
        m < hex_limit(k),
        crate::number::hex(n, k) == crate::number::hex(m, k),
    ensures
        n == m,
    decreases k,
{
    if k > 0 {
        let x = crate::number::hex(n, k);
        let y = crate::number::hex(m, k);
        assert(x.drop_last() == crate::number::hex(n / 16, (k - 1) as nat));
        assert(y.drop_last() == crate::number::hex(m / 16, (k - 1) as nat));
        assert(x.last() == crate::number::hex_digit(n % 16));
        assert(y.last() == crate::number::hex_digit(m % 16));
        assert(n % 16 == m % 16);
        lemma_hex_apart(n / 16, m / 16, (k - 1) as nat);
    }
}

/// One byte that is different, in the sign or in the text of one changed line,
/// makes another anchor: an edit of an approved line that keeps its length does
/// not go unnoticed, wherever in the line it is.
pub proof fn one_other_byte_is_another_anchor(a: HunkModel, b: HunkModel, i: int)
    requires
        differ_in_one_place(
            patch_bytes(changed_lines(a.rows)),
            patch_bytes(changed_lines(b.rows)),
            i,
        ),
    ensures
        crate::diff::anchor(a) != crate::diff::anchor(b),
{
    changes_are_the_changed_lines(a.rows);
    changes_are_the_changed_lines(b.rows);
    lemma_patch_bytes(changed_lines(a.rows));
    lemma_patch_bytes(changed_lines(b.rows));
    let x = crate::diff::fnv(crate::diff::change_bytes(crate::diff::changes(a.rows)));
    let y = crate::diff::fnv(crate::diff::change_bytes(crate::diff::changes(b.rows)));
    lemma_hash_apart(
        patch_bytes(changed_lines(a.rows)),
        patch_bytes(changed_lines(b.rows)),
        i,
    );
    assert(hex_limit(16) > u64::MAX) by {
        reveal_with_fuel(hex_limit, 17);
    }
    assert(changed_lines(a.rows).len() > 0 && changed_lines(b.rows).len() > 0);
    if crate::diff::anchor(a) == crate::diff::anchor(b) {
        lemma_hex_apart(x as nat, y as nat, 16);
    }
}

/// The hash, byte by byte: the 64-bit FNV-1a hash of the changed lines as they
/// stand in a patch, in sixteen hexadecimal digits.
pub open spec fn fnv1a(bytes: Seq<u8>) -> u64 {
    bytes.fold_left(
        0xcbf29ce484222325u64,
        |h: u64, b: u8|
            ((((h ^ (b as u64)) as int) * 0x100000001b3) % 0x1_0000_0000_0000_0000) as u64,
    )
}

proof fn lemma_fnv1a(bytes: Seq<u8>)
    ensures
        crate::diff::fnv(bytes) == fnv1a(bytes),
    decreases bytes.len(),
{
    reveal(Seq::fold_left);
    if bytes.len() > 0 {
        lemma_fnv1a(bytes.drop_last());
    }
}

/// An anchor is the hash of the changed lines, and it is the same wherever the
/// hunk stands, so that an anchor that was saved is found again.
pub proof fn anchor_hashes_the_changed_lines(h: HunkModel)
    requires
        changed_lines(h.rows).len() > 0,
    ensures
        crate::diff::anchor(h) == crate::number::hex(
            fnv1a(patch_bytes(changed_lines(h.rows))) as nat,
            16,
        ),
{
    changes_are_the_changed_lines(h.rows);
    lemma_patch_bytes(changed_lines(h.rows));
    lemma_fnv1a(patch_bytes(changed_lines(h.rows)));
}

/// Only a hunk without changed lines has no anchor.
pub proof fn only_unchanged_lines_have_no_anchor(h: HunkModel)
    ensures
        crate::diff::anchor(h).len() == 0 <==> forall|i: int|
            0 <= i < h.rows.len() ==> (#[trigger] h.rows[i]).kind == LineKind::Ctx,
{
    let keep = |r: RowModel| r.kind != LineKind::Ctx;
    crate::diff::anchor_is_empty_without_changes(h);
    changes_are_the_changed_lines(h.rows);
    if exists|i: int| 0 <= i < h.rows.len() && (#[trigger] h.rows[i]).kind != LineKind::Ctx {
        let i = choose|i: int|
            0 <= i < h.rows.len() && (#[trigger] h.rows[i]).kind != LineKind::Ctx;
        h.rows.lemma_filter_contains(keep, i);
        assert(h.rows.filter(keep).len() > 0);
    } else {
        lemma_nothing_kept(h.rows);
    }
}

proof fn lemma_nothing_kept(rows: Seq<RowModel>)
    requires
        forall|i: int| 0 <= i < rows.len() ==> (#[trigger] rows[i]).kind == LineKind::Ctx,
    ensures
        rows.filter(|r: RowModel| r.kind != LineKind::Ctx).len() == 0,
    decreases rows.len(),
{
    reveal(Seq::filter);
    if rows.len() > 0 {
        assert(rows[rows.len() - 1].kind == LineKind::Ctx);
        lemma_nothing_kept(rows.drop_last());
    }
}

} // verus!
