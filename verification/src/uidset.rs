//! The identifier set of a mailbox as the text that a bulk request carries:
//! the identifiers in decimal, joined by commas.

use crate::decimal::{
    all_digits, decimal, decimal_value, is_digit, lemma_decimal_is_digits,
    lemma_decimal_value_of_decimal, push_decimal,
};
use std::collections::HashSet;
use vstd::prelude::*;
use vstd::string::StringExecFns;

verus! {

broadcast use vstd::std_specs::hash::group_hash_axioms;

/// The identifiers of `order`, each in decimal, with a comma between
/// neighbours: nothing before the first, nothing after the last.
pub open spec fn join_uids(order: Seq<u32>) -> Seq<char>
    decreases order.len(),
{
    if order.len() == 0 {
        Seq::empty()
    } else {
        let head = join_uids(order.drop_last());
        let separator = if head.len() == 0 {
            Seq::empty()
        } else {
            seq![',']
        };
        head + separator + decimal(order.last() as nat)
    }
}

/// Whether `order` lists every identifier of `uids` exactly once.
pub open spec fn lists(order: Seq<u32>, uids: Set<u32>) -> bool {
    order.no_duplicates() && order.to_set() == uids
}

/// Whether `text` is the identifier set `uids` written out in some order.
pub open spec fn serializes(text: Seq<char>, uids: Set<u32>) -> bool {
    exists|order: Seq<u32>| lists(order, uids) && text == #[trigger] join_uids(order)
}

/// The position of the last comma of `text`, or -1 where it holds none.
pub open spec fn last_comma(text: Seq<char>) -> int
    decreases text.len(),
{
    if text.len() == 0 {
        -1
    } else if text.last() == ',' {
        text.len() - 1
    } else {
        last_comma(text.drop_last())
    }
}

/// The identifier that `text` spells: a non-empty run of digits whose value
/// fits an identifier.
pub open spec fn parse_uid(text: Seq<char>) -> Option<u32> {
    if text.len() > 0 && all_digits(text) && decimal_value(text) <= u32::MAX {
        Some(decimal_value(text) as u32)
    } else {
        None
    }
}

/// Reads `text` as a comma list of identifiers. The empty text is the empty
/// list; otherwise every item between the commas must spell an identifier, so
/// a leading, doubled or trailing comma is refused.
pub open spec fn parse_uid_list(text: Seq<char>) -> Option<Seq<u32>>
    decreases text.len(),
{
    if text.len() == 0 {
        Some(Seq::empty())
    } else {
        let at = last_comma(text);
        if !(0 <= at < text.len()) {
            match parse_uid(text) {
                Some(uid) => Some(seq![uid]),
                None => None,
            }
        } else {
            let head = text.subrange(0, at);
            let item = text.subrange(at + 1, text.len() as int);
            if head.len() == 0 {
                None
            } else {
                match (parse_uid_list(head), parse_uid(item)) {
                    (Some(uids), Some(uid)) => Some(uids.push(uid)),
                    _ => None,
                }
            }
        }
    }
}

proof fn lemma_last_comma_of_digits(digits: Seq<char>)
    requires
        all_digits(digits),
    ensures
        last_comma(digits) == -1,
    decreases digits.len(),
{
    if digits.len() > 0 {
        assert(is_digit(digits[digits.len() - 1]));
        lemma_last_comma_of_digits(digits.drop_last());
    }
}

proof fn lemma_last_comma_before_digits(head: Seq<char>, digits: Seq<char>)
    requires
        all_digits(digits),
    ensures
        last_comma(head + seq![','] + digits) == head.len(),
    decreases digits.len(),
{
    let text = head + seq![','] + digits;
    if digits.len() == 0 {
        assert(text.last() == ',');
    } else {
        assert(is_digit(digits[digits.len() - 1]));
        assert(text.last() == digits.last());
        assert(text.drop_last() =~= head + seq![','] + digits.drop_last());
        lemma_last_comma_before_digits(head, digits.drop_last());
    }
}

proof fn lemma_parse_uid_of_decimal(uid: u32)
    ensures
        parse_uid(decimal(uid as nat)) == Some(uid),
{
    lemma_decimal_is_digits(uid as nat);
    lemma_decimal_value_of_decimal(uid as nat);
}

/// The text of a list is empty only for the empty list, and never ends in a
/// comma.
pub proof fn lemma_join_uids_shape(order: Seq<u32>)
    ensures
        join_uids(order).len() == 0 <==> order.len() == 0,
        order.len() > 0 ==> is_digit(join_uids(order).last()),
{
    if order.len() > 0 {
        let digits = decimal(order.last() as nat);
        lemma_decimal_is_digits(order.last() as nat);
        assert(join_uids(order).last() == digits[digits.len() - 1]);
    }
}

/// Writing a list of identifiers out and reading the text as a comma list
/// gives the list back, whatever its length and order.
pub proof fn lemma_join_then_parse(order: Seq<u32>)
    ensures
        parse_uid_list(join_uids(order)) == Some(order),
    decreases order.len(),
{
    let text = join_uids(order);
    if order.len() == 0 {
        assert(order =~= Seq::empty());
    } else {
        let front = order.drop_last();
        let head = join_uids(front);
        let digits = decimal(order.last() as nat);
        lemma_decimal_is_digits(order.last() as nat);
        lemma_parse_uid_of_decimal(order.last());
        lemma_join_uids_shape(front);
        if front.len() == 0 {
            assert(text =~= digits);
            lemma_last_comma_of_digits(digits);
            assert(order =~= seq![order.last()]);
        } else {
            assert(text =~= head + seq![','] + digits);
            lemma_last_comma_before_digits(head, digits);
            assert(text.subrange(0, head.len() as int) =~= head);
            assert(text.subrange(head.len() as int + 1, text.len() as int) =~= digits);
            lemma_join_then_parse(front);
            assert(front.push(order.last()) =~= order);
        }
    }
}

/// An identifier set survives being written out and read back: whatever the
/// order in which the identifiers were written, the text reads as a list that
/// holds each identifier of the set once and nothing else. The empty set is
/// written as the empty text.
pub proof fn lemma_uidset_round_trip(uids: Set<u32>, text: Seq<char>)
    requires
        serializes(text, uids),
    ensures
        parse_uid_list(text) matches Some(items) && lists(items, uids),
        uids.is_empty() <==> text.len() == 0,
{
    let order = choose|order: Seq<u32>| lists(order, uids) && text == #[trigger] join_uids(order);
    lemma_join_then_parse(order);
    lemma_join_uids_shape(order);
    if order.len() == 0 {
        assert(order.to_set() =~= Set::empty());
    } else {
        assert(order.to_set().contains(order[0]));
    }
}

proof fn lemma_unref_lists(items: Seq<&u32>, uids: Set<u32>)
    requires
        items.no_duplicates(),
        items.unref().to_set() == uids,
    ensures
        lists(items.unref(), uids),
{
    let order = items.unref();
    assert forall|i: int, j: int| 0 <= i < order.len() && 0 <= j < order.len() && i != j implies order[i]
        != order[j] by {
        assert(items[i] != items[j]);
    }
}

/// Writes the identifier set out for a bulk request: the identifiers in
/// decimal, joined by commas, in the order in which the set hands them out.
/// The empty set gives the empty string.
pub fn create_uidset(uids: &HashSet<u32>) -> (text: String)
    ensures
        serializes(text@, uids@),
        uids@.is_empty() <==> text@.len() == 0,
{
    let mut text = String::new();
    let ghost mut order: Seq<u32> = Seq::empty();
    assert forall|items: Seq<&u32>| items.len() == 0 && (#[trigger] items.unref()).to_set() == uids@
        implies lists(order, uids@) by {
        assert(items.unref() =~= order);
    }
    for uid in it: uids.iter()
        invariant
            order == it.seq().take(it.index()).unref(),
            text@ == join_uids(order),
            it.seq().no_duplicates(),
            it.seq().unref().to_set() == uids@,
            it.index() == it.seq().len() ==> lists(order, uids@),
    {
        proof {
            lemma_join_uids_shape(order);
        }
        if !text.as_str().is_empty() {
            text.append(",");
            proof {
                reveal_strlit(",");
                assert(","@ =~= seq![',']);
            }
        }
        push_decimal(&mut text, *uid as u64);
        let ghost before = order;
        proof {
            order = order.push(*uid);
        }
        assert(text@ =~= join_uids(order)) by {
            assert(order.drop_last() =~= before);
        }
        assert(order =~= it.seq().take(it.index() + 1).unref());
        assert(it.index() + 1 == it.seq().len() ==> lists(order, uids@)) by {
            if it.index() + 1 == it.seq().len() {
                lemma_unref_lists(it.seq(), uids@);
                assert(it.seq().take(it.index() + 1) =~= it.seq());
            }
        }
    }
    proof {
        lemma_uidset_round_trip(uids@, text@);
    }
    text
}

} // verus!
