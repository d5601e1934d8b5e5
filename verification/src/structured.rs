//! Values in a nested structure that keeps their order.

use vstd::prelude::*;
use crate::component::PostComponent;
use crate::error::{ComponentError, Violation};
use crate::markup::Component;
use crate::text::Style;

verus! {

/// No value, one value, or structures in sequence.
#[derive(Debug)]
pub enum Structured<T> {
    Empty,
    Value(T),
    Sequence(Vec<Structured<T>>),
}

impl<T> Default for Structured<T> {
    fn default() -> (empty: Structured<T>)
        ensures
            empty is Empty,
    {
        Structured::Empty
    }
}

/// The values of a structure, in order.
pub open spec fn values<T>(structure: Structured<T>) -> Seq<T>
    decreases structure,
{
    match structure {
        Structured::Empty => Seq::empty(),
        Structured::Value(value) => seq![value],
        Structured::Sequence(items) => flatten(items@),
    }
}

/// The values of structures in sequence, in order.
pub open spec fn flatten<T>(items: Seq<Structured<T>>) -> Seq<T>
    decreases items,
{
    if items.len() == 0 {
        Seq::empty()
    } else {
        flatten(items.drop_last()) + values(items.last())
    }
}

/// Something that takes values in.
pub trait Container<T> {
    /// The values that were taken in, in order.
    spec fn contents(&self) -> Seq<T>;

    /// Takes `component` in as the last value.
    fn push(&mut self, component: T)
        ensures
            final(self).contents() == old(self).contents().push(component),
    ;
}

impl<T> Container<T> for Structured<T> {
    open spec fn contents(&self) -> Seq<T> {
        values(*self)
    }

    fn push(&mut self, component: T) {
        let mut current = Structured::Empty;
        std::mem::swap(self, &mut current);
        *self = match current {
            Structured::Empty => {
                assert(values(Structured::Value(component)) =~= values(
                    Structured::<T>::Empty,
                ).push(component));
                Structured::Value(component)
            },
            Structured::Sequence(mut items) => {
                let ghost before = items@;
                items.push(Structured::Value(component));
                assert(items@.drop_last() =~= before);
                assert(values(items@.last()) =~= seq![component]);
                assert(flatten(before) + seq![component] =~= flatten(before).push(component));
                assert(flatten(items@) =~= flatten(before).push(component));
                Structured::Sequence(items)
            },
            Structured::Value(value) => {
                let mut items: Vec<Structured<T>> = Vec::new();
                items.push(Structured::Value(value));
                let ghost one = items@;
                items.push(Structured::Value(component));
                assert(items@.drop_last() =~= one);
                assert(one.drop_last() =~= Seq::<Structured<T>>::empty());
                assert(flatten(one.drop_last()) =~= Seq::<T>::empty());
                assert(values(one.last()) =~= seq![value]);
                assert(flatten(one) =~= seq![value]);
                assert(values(items@.last()) =~= seq![component]);
                assert(flatten(items@) =~= seq![value].push(component));
                assert(values(Structured::Value(value)) =~= seq![value]);
                Structured::Sequence(items)
            },
        };
    }
}

/// The first fault among values, in order.
pub open spec fn first_fault<T: Component>(values: Seq<T>) -> Option<Violation>
    decreases values.len(),
{
    if values.len() == 0 {
        None
    } else {
        match first_fault(values.drop_last()) {
            Some(violation) => Some(violation),
            None => values.last().fault(),
        }
    }
}

/// Whether `cut` is a place in `markup`.
pub open spec fn cuts(markup: Seq<char>, cut: int) -> bool {
    0 <= cut <= markup.len()
}

/// Whether `markup` is made of a rendering of each of the values, in order.
pub open spec fn renders_all<T: Component>(values: Seq<T>, markup: Seq<char>) -> bool
    decreases values.len(),
{
    if values.len() == 0 {
        markup.len() == 0
    } else {
        exists|cut: int|
            #[trigger] cuts(markup, cut) && renders_all(values.drop_last(), markup.take(cut))
                && values.last().renders_as(markup.skip(cut))
    }
}

/// Values that follow values with a fault do not change the first fault.
pub proof fn lemma_first_fault_stays<T: Component>(done: Seq<T>, more: Seq<T>)
    requires
        first_fault(done) is Some,
    ensures
        first_fault(done + more) == first_fault(done),
    decreases more.len(),
{
    if more.len() == 0 {
        assert(done + more =~= done);
    } else {
        lemma_first_fault_stays(done, more.drop_last());
        assert((done + more).drop_last() =~= done + more.drop_last());
    }
}

/// Writes a rendering of each value of `structure` at the end of `buffer`,
/// which holds a rendering of each of the values `done`.
fn render_values<T: Component>(
    structure: &Structured<T>,
    buffer: &mut String,
    Ghost(done): Ghost<Seq<T>>,
) -> (result: Result<(), ComponentError>)
    requires
        first_fault(done) is None,
        renders_all(done, old(buffer)@),
    ensures
        match first_fault(done + values(*structure)) {
            Some(violation) => result == Err::<(), ComponentError>(
                ComponentError::Invariant(violation),
            ),
            None => result is Ok && renders_all(done + values(*structure), final(buffer)@),
        },
    decreases structure,
{
    match structure {
        Structured::Empty => {
            assert(done + values(*structure) =~= done);
            Ok(())
        },
        Structured::Value(value) => {
            let ghost all = done + values(*structure);
            let ghost before = buffer@;
            assert(all.drop_last() =~= done);
            assert(all.last() == *value);
            let result = value.render(buffer);
            proof {
                assert(first_fault(all) == value.fault());
                if result is Ok {
                    assert(buffer@.take(before.len() as int) == before);
                    assert(cuts(buffer@, before.len() as int));
                    assert(renders_all(all.drop_last(), buffer@.take(before.len() as int)));
                    assert(all.last().renders_as(buffer@.skip(before.len() as int)));
                    assert(renders_all(all, buffer@));
                }
            }
            result
        },
        Structured::Sequence(items) => {
            let mut i: usize = 0;
            assert(done + flatten(items@.take(0)) =~= done);
            while i < items.len()
                invariant
                    i <= items@.len(),
                    *structure == Structured::Sequence(*items),
                    first_fault(done + flatten(items@.take(i as int))) is None,
                    renders_all(done + flatten(items@.take(i as int)), buffer@),
                decreases items@.len() - i,
            {
                let ghost so_far = done + flatten(items@.take(i as int));
                let ghost next = items@.take(i + 1);
                assert(decreases_to!(*items => items[i as int]));
                proof {
                    assert(next.drop_last() =~= items@.take(i as int));
                    assert(next.last() == items@[i as int]);
                    assert(so_far + values(items@[i as int]) =~= done + flatten(next));
                }
                match render_values(&items[i], buffer, Ghost(so_far)) {
                    Ok(()) => {},
                    Err(error) => {
                        proof {
                            let rest = items@.skip(i + 1);
                            lemma_flatten_split(items@, i + 1);
                            lemma_first_fault_stays(done + flatten(next), flatten(rest));
                            assert((done + flatten(next)) + flatten(rest) =~= done + flatten(
                                items@,
                            ));
                        }
                        return Err(error);
                    },
                }
                i += 1;
            }
            assert(items@.take(items@.len() as int) =~= items@);
            assert(values(*structure) == flatten(items@));
            Ok(())
        },
    }
}

/// The values of structures are the values of the first of them followed
/// by the values of the rest.
pub proof fn lemma_flatten_split<T>(items: Seq<Structured<T>>, n: int)
    requires
        0 <= n <= items.len(),
    ensures
        flatten(items) == flatten(items.take(n)) + flatten(items.skip(n)),
    decreases items.len(),
{
    if n == items.len() {
        assert(items.take(n) =~= items);
        assert(items.skip(n) =~= Seq::<Structured<T>>::empty());
        assert(flatten(items) + Seq::<T>::empty() =~= flatten(items));
    } else {
        lemma_flatten_split(items.drop_last(), n);
        assert(items.drop_last().take(n) =~= items.take(n));
        assert(items.drop_last().skip(n) =~= items.skip(n).drop_last());
        assert(items.skip(n).last() == items.last());
        assert(flatten(items.take(n)) + (flatten(items.skip(n).drop_last()) + values(
            items.last(),
        )) =~= (flatten(items.take(n)) + flatten(items.skip(n).drop_last())) + values(
            items.last(),
        ));
    }
}

impl<T: Component> Component for Structured<T> {
    open spec fn fault(&self) -> Option<Violation> {
        first_fault(values(*self))
    }

    open spec fn renders_as(&self, markup: Seq<char>) -> bool {
        renders_all(values(*self), markup)
    }

    fn render(&self, target: &mut String) -> (result: Result<(), ComponentError>) {
        let mut buffer = String::new();
        assert(Seq::<T>::empty() + values(*self) =~= values(*self));
        match render_values(self, &mut buffer, Ghost(Seq::empty())) {
            Ok(()) => {
                target.append(buffer.as_str());
                proof {
                    assert(final(target)@.skip(old(target)@.len() as int) =~= buffer@);
                    assert(final(target)@.take(old(target)@.len() as int) =~= old(target)@);
                }
                Ok(())
            },
            Err(error) => Err(error),
        }
    }
}

/// What a segment of text holds.
#[derive(Debug, Default)]
pub enum SegmentContent {
    #[default]
    Empty,
    Text(String),
    Other(Box<PostComponent>),
}

/// A segment of text in one style.
#[derive(Debug, Default)]
pub struct TextSegment {
    pub style: Style,
    pub content: SegmentContent,
}

} // verus!
