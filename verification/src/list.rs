//! The list itself: nodes that own their successor, and the operations that
//! link and unlink them.

use crate::error::InsertionError;
use crate::text::{debug_text, render, rendering, views};
use std::fmt::Debug;
use vstd::prelude::*;

verus! {

/// One element of a list: a value and the rest of the chain behind it.
#[derive(Debug)]
struct Node<T> {
    value: T,
    next: Option<Box<Node<T>>>,
}

/// The values reachable from `link`, nearest first.
spec fn chain<T>(link: Option<Box<Node<T>>>) -> Seq<T>
    decreases link,
{
    match link {
        None => Seq::empty(),
        Some(node) => seq![node.value] + chain(node.next),
    }
}

/// Moving one value from the front of what lies ahead to the end of what was
/// passed leaves the whole unchanged.
proof fn lemma_pass_one<T>(passed: Seq<T>, value: T, ahead: Seq<T>)
    ensures
        passed + (seq![value] + ahead) == passed.push(value) + ahead,
{
    assert(passed + (seq![value] + ahead) =~= passed.push(value) + ahead);
}

/// Walks from `link` towards the link at position `index`, and stops early at
/// the end of the chain. Returns the link reached and its position.
fn seek<T>(link: &mut Option<Box<Node<T>>>, index: usize) -> (found: (
    &mut Option<Box<Node<T>>>,
    usize,
))
    ensures
        found.1 <= index,
        found.1 <= chain(*old(link)).len(),
        found.1 < index ==> found.1 == chain(*old(link)).len(),
        chain(*found.0) == chain(*old(link)).skip(found.1 as int),
        chain(*final(link)) == chain(*old(link)).take(found.1 as int) + chain(*final(found.0)),
{
    let ghost before = chain(*link);
    let ghost mut passed: Seq<T> = Seq::empty();
    let mut cur = link;
    let mut position: usize = 0;
    assert(before =~= passed + chain(*cur));
    while position < index
        invariant
            position <= index,
            passed.len() == position,
            before == passed + chain(*cur),
            chain(*final(link)) == passed + chain(*final(cur)),
        ensures
            position <= index,
            passed.len() == position,
            before == passed + chain(*cur),
            chain(*final(link)) == passed + chain(*final(cur)),
            position < index ==> *cur is None,
        decreases index - position,
    {
        match cur {
            None => {
                break ;
            },
            Some(node) => {
                let ghost value = node.value;
                cur = &mut node.next;
                position += 1;
                proof {
                    lemma_pass_one(passed, value, chain(*cur));
                    lemma_pass_one(passed, value, chain(*final(cur)));
                    passed = passed.push(value);
                }
            },
        }
    }
    proof {
        assert(before.take(position as int) =~= passed);
        assert(before.skip(position as int) =~= chain(*cur));
    }
    (cur, position)
}

/// A singly linked list. It keeps its first node only: the last node and the
/// length are found by walking the chain.
#[derive(Debug)]
pub struct LinkedList<T> {
    head: Option<Box<Node<T>>>,
}

impl<T> View for LinkedList<T> {
    type V = Seq<T>;

    /// The values of the list, first to last.
    closed spec fn view(&self) -> Seq<T> {
        chain(self.head)
    }
}

impl<T> LinkedList<T> {
    /// An empty list.
    pub fn new() -> (list: Self)
        ensures
            list@ == Seq::<T>::empty(),
    {
        LinkedList { head: None }
    }

    /// Puts `value` before every other value.
    pub fn push_front(&mut self, value: T)
        ensures
            final(self)@ == seq![value] + old(self)@,
    {
        let rest = self.head.take();
        self.head = Some(Box::new(Node { value, next: rest }));
    }

    /// Takes the first value out, if there is one.
    pub fn pop_front(&mut self) -> (out: Option<T>)
        ensures
            old(self)@.len() == 0 ==> out is None && final(self)@ == old(self)@,
            old(self)@.len() > 0 ==> out == Some(old(self)@.first()) && final(self)@ == old(
                self,
            )@.drop_first(),
    {
        match self.head.take() {
            None => None,
            Some(node) => {
                let Node { value, next } = *node;
                self.head = next;
                Some(value)
            },
        }
    }

    /// Puts `value` behind every other value, after a walk to the last node.
    pub fn push_back(&mut self, value: T)
        ensures
            final(self)@ == old(self)@.push(value),
    {
        let ghost before = self@;
        let ghost mut passed: Seq<T> = Seq::empty();
        let mut cur = &mut self.head;
        assert(before =~= passed + chain(*cur));
        loop
            invariant
                before == passed + chain(*cur),
                chain(after_borrow(self.head)) == passed + chain(*final(cur)),
            ensures
                *cur is None,
            decreases chain(*cur).len(),
        {
            match cur {
                None => {
                    break ;
                },
                Some(node) => {
                    let ghost value = node.value;
                    cur = &mut node.next;
                    proof {
                        lemma_pass_one(passed, value, chain(*cur));
                        lemma_pass_one(passed, value, chain(*final(cur)));
                        passed = passed.push(value);
                    }
                },
            }
        }
        *cur = Some(Box::new(Node { value, next: None }));
        assert(chain(*cur) =~= seq![value]) by {
            reveal_with_fuel(chain, 2);
        }
        assert(passed + seq![value] =~= before.push(value));
    }

    /// Puts `value` at position `index`, before the value that stood there.
    /// An `index` equal to the length puts it last. A greater one is refused,
    /// and the list stays as it was.
    pub fn insert(&mut self, index: usize, value: T) -> (outcome: Result<(), InsertionError>)
        ensures
            index <= old(self)@.len() ==> outcome is Ok && final(self)@ == old(self)@.insert(
                index as int,
                value,
            ),
            index > old(self)@.len() ==> outcome == Err::<(), InsertionError>(
                InsertionError::TooBigIndex { size: old(self)@.len() as usize, index },
            ) && final(self)@ == old(self)@,
    {
        let ghost before = self@;
        let (cur, position) = seek(&mut self.head, index);
        if position < index {
            proof {
                assert(before.take(position as int) + chain(*cur) =~= before);
            }
            return Err(InsertionError::TooBigIndex { size: position, index });
        }
        let ghost ahead = chain(*cur);
        let rest = cur.take();
        *cur = Some(Box::new(Node { value, next: rest }));
        proof {
            assert(before.take(index as int) + (seq![value] + ahead) =~= before.insert(
                index as int,
                value,
            ));
        }
        Ok(())
    }

    /// Takes out the value at position `index`. An `index` at or beyond the
    /// length is refused, and the list stays as it was.
    pub fn delete(&mut self, index: usize) -> (outcome: Result<T, InsertionError>)
        ensures
            index < old(self)@.len() ==> outcome == Ok::<T, InsertionError>(
                old(self)@[index as int],
            ) && final(self)@ == old(self)@.remove(index as int),
            index >= old(self)@.len() ==> outcome == Err::<T, InsertionError>(
                InsertionError::TooBigIndex { size: old(self)@.len() as usize, index },
            ) && final(self)@ == old(self)@,
    {
        let ghost before = self@;
        let (cur, position) = seek(&mut self.head, index);
        let ghost found = chain(*cur);
        match cur.take() {
            None => {
                proof {
                    assert(found.len() == 0);
                    assert(before.take(position as int) + chain::<T>(None) =~= before);
                }
                Err(InsertionError::TooBigIndex { size: position, index })
            },
            Some(node) => {
                let Node { value, next } = *node;
                let ghost ahead = chain(next);
                *cur = next;
                proof {
                    assert(found == seq![value] + ahead);
                    assert(found.len() > 0);
                    assert(position == index);
                    assert(before[index as int] == found[0]);
                    assert(ahead =~= found.skip(1));
                    assert(ahead =~= before.skip(index + 1));
                    assert(before.take(index as int) + ahead =~= before.remove(index as int));
                }
                Ok(value)
            },
        }
    }

    /// Takes the last value out, if there is one, after a walk to the last
    /// node.
    pub fn pop_back(&mut self) -> (out: Option<T>)
        ensures
            old(self)@.len() == 0 ==> out is None && final(self)@ == old(self)@,
            old(self)@.len() > 0 ==> out == Some(old(self)@.last()) && final(self)@ == old(
                self,
            )@.drop_last(),
    {
        let ghost before = self@;
        let ghost mut passed: Seq<T> = Seq::empty();
        let mut cur = &mut self.head;
        assert(before =~= passed + chain(*cur));
        loop
            invariant
                before == passed + chain(*cur),
                chain(after_borrow(self.head)) == passed + chain(*final(cur)),
                passed.len() > 0 ==> *cur is Some,
            ensures
                chain(*cur).len() <= 1,
            decreases chain(*cur).len(),
        {
            let at_last = match &*cur {
                None => true,
                Some(node) => node.next.is_none(),
            };
            if at_last {
                assert(chain(*cur).len() <= 1) by {
                    reveal_with_fuel(chain, 2);
                }
                break ;
            }
            let ghost value = cur->0.value;
            cur = &mut cur.as_mut().unwrap().next;
            proof {
                lemma_pass_one(passed, value, chain(*cur));
                lemma_pass_one(passed, value, chain(*final(cur)));
                passed = passed.push(value);
            }
        }
        let ghost found = chain(*cur);
        match cur.take() {
            None => {
                proof {
                    assert(found.len() == 0);
                    assert(passed + chain::<T>(None) =~= passed);
                    assert(before =~= passed);
                }
                None
            },
            Some(node) => {
                let Node { value, next } = *node;
                proof {
                    assert(found == seq![value] + chain(next));
                    assert(found =~= seq![value]);
                    assert(passed + chain::<T>(None) =~= passed);
                    assert(before =~= passed.push(value));
                    assert(passed =~= before.drop_last());
                }
                Some(value)
            },
        }
    }

    /// Puts `value` before every other value: `push_front` under another name.
    pub fn prepend(&mut self, value: T)
        ensures
            final(self)@ == seq![value] + old(self)@,
    {
        self.push_front(value)
    }

    /// Puts `value` behind every other value: `push_back` under another name.
    pub fn append(&mut self, value: T)
        ensures
            final(self)@ == old(self)@.push(value),
    {
        self.push_back(value)
    }

    /// Takes the first value out, if there is one: `pop_front` under another
    /// name.
    pub fn pop(&mut self) -> (out: Option<T>)
        ensures
            old(self)@.len() == 0 ==> out is None && final(self)@ == old(self)@,
            old(self)@.len() > 0 ==> out == Some(old(self)@.first()) && final(self)@ == old(
                self,
            )@.drop_first(),
    {
        self.pop_front()
    }

    /// The line that shows the list, with `show` giving the text of each
    /// value: the texts in the order of the values, each followed by `" -> "`,
    /// and `"None"` at the end.
    pub fn to_string_with<F: Fn(&T) -> String>(&self, show: F) -> (line: String)
        requires
            forall|i: int| 0 <= i < self@.len() ==> call_requires(show, (&self@[i],)),
        ensures
            exists|texts: Seq<String>|
                {
                    &&& texts.len() == self@.len()
                    &&& forall|i: int|
                        0 <= i < texts.len() ==> call_ensures(
                            show,
                            (&self@[i],),
                            #[trigger] texts[i],
                        )
                    &&& line@ == rendering(views(texts))
                },
    {
        let mut texts: Vec<String> = Vec::new();
        let mut cur = &self.head;
        assert(self@.skip(0) =~= chain(*cur));
        loop
            invariant
                texts@.len() <= self@.len(),
                chain(*cur) == self@.skip(texts@.len() as int),
                forall|i: int| 0 <= i < self@.len() ==> call_requires(show, (&self@[i],)),
                forall|i: int|
                    0 <= i < texts@.len() ==> call_ensures(
                        show,
                        (&self@[i],),
                        #[trigger] texts@[i],
                    ),
            ensures
                texts@.len() == self@.len(),
            decreases chain(*cur).len(),
        {
            match cur {
                None => {
                    break ;
                },
                Some(node) => {
                    let ghost at = texts@.len() as int;
                    assert(node.value == self@[at]) by {
                        assert(chain(*cur)[0] == node.value);
                    }
                    assert(chain(node.next) =~= self@.skip(at + 1)) by {
                        assert(chain(node.next) =~= chain(*cur).skip(1));
                    }
                    let text = show(&node.value);
                    texts.push(text);
                    cur = &node.next;
                },
            }
        }
        render(&texts)
    }

    /// The line that shows the list: the `Debug` text of each value in order,
    /// each followed by `" -> "`, and `"None"` at the end. What a `Debug` text
    /// holds is not known here, so the contract speaks of the line's shape.
    pub fn to_string(&self) -> (line: String) where T: Debug
        ensures
            exists|texts: Seq<Seq<char>>| texts.len() == self@.len() && line@ == rendering(texts),
    {
        let line = self.to_string_with(debug_text::<T>);
        proof {
            let texts = choose|texts: Seq<String>|
                texts.len() == self@.len() && line@ == rendering(views(texts));
            assert(views(texts).len() == self@.len());
        }
        line
    }
}

impl<T> Drop for LinkedList<T> {
    /// Unlinks the nodes one at a time, so that releasing a long list does not
    /// go as deep as the list is long.
    fn drop(&mut self)
        opens_invariants none
        no_unwind
    {
        let mut cur: Option<Box<Node<T>>> = None;
        std::mem::swap(&mut self.head, &mut cur);
        loop
            decreases chain(cur).len(),
        {
            match cur {
                None => {
                    break ;
                },
                Some(mut node) => {
                    let mut next: Option<Box<Node<T>>> = None;
                    std::mem::swap(&mut node.next, &mut next);
                    cur = next;
                },
            }
        }
    }
}

} // verus!
