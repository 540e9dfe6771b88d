//! Laws of the skip logic, stated over the same spec functions that the
//! engine's contracts use.

use vstd::prelude::*;
use vstd::arithmetic::div_mod::lemma_fundamental_div_mod;
use crate::flow_control::{if_block, skipping_in, CodeBlockView, StatementView};
use crate::numeral::{dec_digits, dec_str_of, digit_char};
use crate::to_num::{all_digits, digit_val, digits_val, is_digit, num_of, parsed_num};

verus! {

/// A conditional selects its branch. On a stack that is not already
/// skipping, pushing the block of an evaluated `if` makes the engine skip
/// ordinary commands exactly when the condition is false; flipping the
/// condition in place (what `else` does) makes it skip exactly when the
/// condition is true, so exactly one of the two branches has its commands
/// dispatched; and popping the block (what `end` does) restores the stack.
pub proof fn lemma_if_selects_branch(blocks: Seq<CodeBlockView>, c: bool)
    requires
        !skipping_in(blocks),
    ensures
        skipping_in(blocks.push(if_block(c))) == !c,
        skipping_in(blocks.push(if_block(c)).update(blocks.len() as int, if_block(!c))) == c,
        blocks.push(if_block(c)).drop_last() == blocks,
        blocks.push(if_block(c)).update(blocks.len() as int, if_block(!c)).drop_last() == blocks,
{
    let n = blocks.len() as int;
    let b1 = blocks.push(if_block(c));
    let b2 = b1.update(n, if_block(!c));
    assert forall|i: int| 0 <= i < blocks.len() implies blocks[i].statement != StatementView::If(
        false,
    ) by {
        if blocks[i].statement == StatementView::If(false) {
            assert(skipping_in(blocks));
        }
    }
    if c {
        assert(b2[n].statement == StatementView::If(false));
        assert(skipping_in(b2));
        if skipping_in(b1) {
            let i = choose|i: int|
                0 <= i < b1.len() && b1[i].statement == StatementView::If(false);
            assert(i < n ==> b1[i] == blocks[i]);
            assert(false);
        }
    } else {
        assert(b1[n].statement == StatementView::If(false));
        assert(skipping_in(b1));
        if skipping_in(b2) {
            let i = choose|i: int|
                0 <= i < b2.len() && b2[i].statement == StatementView::If(false);
            assert(i < n ==> b2[i] == blocks[i]);
            assert(false);
        }
    }
    assert(b1.drop_last() =~= blocks);
    assert(b2.drop_last() =~= blocks);
}

/// Skipping is decided by any enclosing frame, not only the innermost one:
/// a stack extended by one block skips exactly when the old stack already
/// skipped or the new block is a false `if`. In particular, inside a false
/// branch every nested `if` block — whatever its own condition — leaves the
/// engine skipping, and popping nested blocks one by one restores each
/// enclosing stack in turn.
pub proof fn lemma_skip_any_ancestor(blocks: Seq<CodeBlockView>, b: CodeBlockView)
    ensures
        skipping_in(blocks.push(b)) <==> (skipping_in(blocks) || b.statement == StatementView::If(
            false,
        )),
        blocks.push(b).drop_last() == blocks,
{
    let n = blocks.len() as int;
    let b1 = blocks.push(b);
    if skipping_in(blocks) {
        let i = choose|i: int|
            0 <= i < blocks.len() && blocks[i].statement == StatementView::If(false);
        assert(b1[i].statement == StatementView::If(false));
        assert(skipping_in(b1));
    }
    if b.statement == StatementView::If(false) {
        assert(b1[n].statement == StatementView::If(false));
        assert(skipping_in(b1));
    }
    if skipping_in(b1) && !skipping_in(blocks) {
        let i = choose|i: int| 0 <= i < b1.len() && b1[i].statement == StatementView::If(false);
        if i < n {
            assert(blocks[i].statement == StatementView::If(false));
            assert(skipping_in(blocks));
        } else {
            assert(b1[i] == b);
        }
    }
    assert(b1.drop_last() =~= blocks);
}

proof fn lemma_dec_digits_shape(n: int)
    requires
        n >= 0,
    ensures
        dec_digits(n).len() >= 1,
        all_digits(dec_digits(n)),
        digits_val(dec_digits(n)) == n,
    decreases n,
{
    if n < 10 {
        let s = seq![digit_char(n)];
        assert(dec_digits(n) == s);
        assert(is_digit(digit_char(n)));
        assert(s.drop_last() =~= Seq::<char>::empty());
        assert(s.last() == digit_char(n));
        assert(digits_val(s.drop_last()) == 0);
        assert(digits_val(s) == digits_val(s.drop_last()) * 10 + digit_val(s.last()));
        assert(digit_val(digit_char(n)) == n);
    } else {
        lemma_fundamental_div_mod(n, 10);
        lemma_dec_digits_shape(n / 10);
        let prefix = dec_digits(n / 10);
        let s = dec_digits(n);
        assert(s == prefix.push(digit_char(n % 10)));
        assert(s.drop_last() =~= prefix);
        assert(s.last() == digit_char(n % 10));
        assert forall|i: int| 0 <= i < s.len() implies is_digit(s[i]) by {
            if i < s.len() - 1 {
                assert(s[i] == prefix[i]);
            } else {
                assert(s[i] == digit_char(n % 10));
            }
        }
        assert(digits_val(s) == digits_val(prefix) * 10 + digit_val(digit_char(n % 10)));
        assert(digit_val(digit_char(n % 10)) == n % 10);
    }
}

/// The decimal string of a status reads back as the same number: the `?`
/// binding written after an exit status, when a later `if` compares it
/// numerically, denotes exactly that status.
pub proof fn lemma_dec_str_reads_back(n: int)
    requires
        -0x8000_0000_0000_0000 <= n <= 0x7fff_ffff_ffff_ffff,
    ensures
        num_of(dec_str_of(n)) == n,
{
    if n >= 0 {
        lemma_dec_digits_shape(n);
        assert(dec_str_of(n) == dec_digits(n));
        assert(parsed_num(dec_str_of(n)) == Some(n));
    } else {
        lemma_dec_digits_shape(-n);
        let s = dec_str_of(n);
        assert(s == seq!['-'] + dec_digits(-n));
        assert(s.len() >= 2);
        assert(s[0] == '-');
        assert(!is_digit(s[0]));
        assert(!all_digits(s));
        assert(s.skip(1) =~= dec_digits(-n));
        assert(parsed_num(s) == Some(-digits_val(dec_digits(-n))));
        assert(num_of(s) == n);
    }
}

} // verus!
