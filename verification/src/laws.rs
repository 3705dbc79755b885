//! What holds of the list's operations taken together, stated over the
//! sequences and lines that their contracts speak of.

use crate::text::rendering;
use vstd::prelude::*;

verus! {

/// The values of a list that held `items`, after each of `values` went to its
/// front by `push_front`, the first of them first.
pub open spec fn push_front_each<T>(items: Seq<T>, values: Seq<T>) -> Seq<T>
    decreases values.len(),
{
    if values.len() == 0 {
        items
    } else {
        push_front_each(seq![values.first()] + items, values.drop_first())
    }
}

/// The values of a list that held `items`, after each of `values` went to its
/// back by `push_back`, the first of them first.
pub open spec fn push_back_each<T>(items: Seq<T>, values: Seq<T>) -> Seq<T>
    decreases values.len(),
{
    if values.len() == 0 {
        items
    } else {
        push_back_each(items.push(values.first()), values.drop_first())
    }
}

/// Values pushed to the front one after another stand in the list in reverse:
/// the last one pushed comes first, and what the list held before follows.
pub proof fn lemma_push_front_each_reverses<T>(items: Seq<T>, values: Seq<T>)
    ensures
        push_front_each(items, values) == values.reverse() + items,
        push_front_each(Seq::empty(), values) == values.reverse(),
    decreases values.len(), items.len(),
{
    if values.len() == 0 {
        assert(values.reverse() + items =~= items);
    } else {
        let first = values.first();
        let rest = values.drop_first();
        lemma_push_front_each_reverses(seq![first] + items, rest);
        assert(rest.reverse() + (seq![first] + items) =~= values.reverse() + items);
    }
    if items.len() == 0 {
        assert(items =~= Seq::empty());
        assert(values.reverse() + items =~= values.reverse());
    } else {
        lemma_push_front_each_reverses(Seq::empty(), values);
    }
}

/// Values pushed to the back one after another stand in the list in the order
/// in which they came, behind what the list held before.
pub proof fn lemma_push_back_each_keeps_order<T>(items: Seq<T>, values: Seq<T>)
    ensures
        push_back_each(items, values) == items + values,
        push_back_each(Seq::empty(), values) == values,
    decreases values.len(), items.len(),
{
    if values.len() == 0 {
        assert(items + values =~= items);
    } else {
        let first = values.first();
        let rest = values.drop_first();
        lemma_push_back_each_keeps_order(items.push(first), rest);
        assert(items.push(first) + rest =~= items + values);
    }
    if items.len() == 0 {
        assert(items =~= Seq::empty());
        assert(items + values =~= values);
    } else {
        lemma_push_back_each_keeps_order(Seq::empty(), values);
    }
}

/// `push_front` and then `pop_front` hands the pushed value back and leaves
/// the list as it was, whatever it held.
pub proof fn lemma_push_front_then_pop_front<T>(items: Seq<T>, value: T)
    ensures
        (seq![value] + items).len() > 0,
        (seq![value] + items).first() == value,
        (seq![value] + items).drop_first() == items,
{
    assert((seq![value] + items).drop_first() =~= items);
}

/// `push_back` and then `pop_back` hands the pushed value back and leaves the
/// list as it was, whatever it held.
pub proof fn lemma_push_back_then_pop_back<T>(items: Seq<T>, value: T)
    ensures
        items.push(value).len() > 0,
        items.push(value).last() == value,
        items.push(value).drop_last() == items,
{
    assert(items.push(value).drop_last() =~= items);
}

/// `insert` at position 0 does what `push_front` does, and `insert` at the
/// length does what `push_back` does.
pub proof fn lemma_insert_at_the_ends<T>(items: Seq<T>, value: T)
    ensures
        items.insert(0, value) == seq![value] + items,
        items.insert(items.len() as int, value) == items.push(value),
{
    assert(items.insert(0, value) =~= seq![value] + items);
    assert(items.insert(items.len() as int, value) =~= items.push(value));
}

/// `insert` at position 0 of an empty list leaves a list of that one value,
/// whose line is the value's text, `" -> "` and `"None"`.
pub proof fn lemma_insert_into_empty<T>(value: T, text: Seq<char>)
    ensures
        Seq::<T>::empty().insert(0, value) == seq![value],
        rendering(seq![text]) == text + " -> "@ + "None"@,
{
    assert(Seq::<T>::empty().insert(0, value) =~= seq![value]);
    assert(seq![text].drop_first() =~= Seq::<Seq<char>>::empty());
    reveal_with_fuel(rendering, 2);
}

/// `insert` and then `delete` at the same position hands the inserted value
/// back and leaves the list as it was.
pub proof fn lemma_insert_then_delete<T>(items: Seq<T>, index: int, value: T)
    requires
        0 <= index <= items.len(),
    ensures
        index < items.insert(index, value).len(),
        items.insert(index, value)[index] == value,
        items.insert(index, value).remove(index) == items,
{
    assert(items.insert(index, value).remove(index) =~= items);
}

/// `delete` at position 0 does what `pop_front` does on a list that holds a
/// value, and `delete` at the last position does what `pop_back` does.
pub proof fn lemma_delete_at_the_ends<T>(items: Seq<T>)
    requires
        items.len() > 0,
    ensures
        items[0] == items.first(),
        items.remove(0) == items.drop_first(),
        items[items.len() - 1] == items.last(),
        items.remove(items.len() - 1) == items.drop_last(),
{
    assert(items.remove(0) =~= items.drop_first());
    assert(items.remove(items.len() - 1) =~= items.drop_last());
}

/// How one more value changes the line of a list: at the front its text and
/// `" -> "` come before the old line; at the back they come between the old
/// line's texts and the closing `"None"`.
pub proof fn lemma_rendering_grows(texts: Seq<Seq<char>>, text: Seq<char>)
    ensures
        rendering(Seq::empty()) == "None"@,
        rendering(seq![text] + texts) == text + " -> "@ + rendering(texts),
        rendering(texts).len() >= "None"@.len(),
        rendering(texts.push(text)) == rendering(texts).take(
            rendering(texts).len() - "None"@.len(),
        ) + text + " -> "@ + "None"@,
    decreases texts.len(),
{
    let none = "None"@;
    let arrow = " -> "@;
    assert((seq![text] + texts).drop_first() =~= texts);
    if texts.len() == 0 {
        assert(texts.push(text).drop_first() =~= Seq::<Seq<char>>::empty());
        reveal_with_fuel(rendering, 2);
        assert(rendering(texts).take(0) + text + arrow + none =~= text + arrow + none);
    } else {
        let first = texts.first();
        let rest = texts.drop_first();
        lemma_rendering_grows(rest, text);
        assert(texts.push(text).drop_first() =~= rest.push(text));
        assert(texts.push(text).first() == first);
        let stem = rendering(rest).take(rendering(rest).len() - none.len());
        assert(rendering(texts) == first + arrow + rendering(rest));
        assert(rendering(texts).take(rendering(texts).len() - none.len()) =~= first + arrow
            + stem);
        assert(first + arrow + (stem + text + arrow + none) =~= first + arrow + stem + text
            + arrow + none);
    }
}

} // verus!
