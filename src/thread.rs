use vstd::prelude::*;

use crate::coord::Coord;
use crate::dir::Dir;

verus! {

/// What a thread does with the character under it.
#[derive(Debug, Clone, Copy, PartialEq, Eq, Structural)]
pub enum State {
    /// Finished; removed from the roster at the end of the tick.
    Dead,
    /// Inside a `'...'` string: each character is pushed.
    Push,
    /// After a backslash inside a `'...'` string.
    PushEsc,
    /// After `"`: the next character is pushed.
    Char,
    /// After `"\`: the next character is pushed escaped.
    CharEsc,
    /// Executing instructions.
    Exec,
}

/// An instruction pointer: where it is, where it heads, how it reads, and its
/// stack of values.
#[derive(Debug, Clone)]
pub struct Thread {
    pub coord: Coord,
    pub dir: Dir,
    pub state: State,
    pub stack: Vec<u32>,
}

/// A thread as a mathematical value; the top of the stack is its last element.
pub struct ThreadView {
    pub coord: Coord,
    pub dir: Dir,
    pub state: State,
    pub stack: Seq<u32>,
}

impl View for Thread {
    type V = ThreadView;

    open spec fn view(&self) -> ThreadView {
        ThreadView { coord: self.coord, dir: self.dir, state: self.state, stack: self.stack@ }
    }
}

/// What popping a stack yields: its top, or 0 when it is empty.
pub open spec fn top_or_zero(s: Seq<u32>) -> u32 {
    if s.len() == 0 {
        0
    } else {
        s.last()
    }
}

/// A stack after a pop: the top removed, an empty stack left as it is.
pub open spec fn popped(s: Seq<u32>) -> Seq<u32> {
    if s.len() == 0 {
        s
    } else {
        s.drop_last()
    }
}

/// A copy of `v`, element by element.
pub fn copy_stack(v: &Vec<u32>) -> (r: Vec<u32>)
    ensures
        r@ == v@,
{
    let mut r: Vec<u32> = Vec::with_capacity(v.len());
    let mut i: usize = 0;
    while i < v.len()
        invariant
            i <= v@.len(),
            r@ == v@.subrange(0, i as int),
        decreases v@.len() - i,
    {
        r.push(v[i]);
        i = i + 1;
    }
    assert(v@.subrange(0, v@.len() as int) =~= v@);
    r
}

impl Thread {
    /// A thread at `coord` heading east, executing, with an empty stack.
    pub fn new(coord: Coord) -> (r: Thread)
        ensures
            r@ == (ThreadView { coord, dir: Dir::E, state: State::Exec, stack: Seq::empty() }),
    {
        Thread { coord, dir: Dir::E, state: State::Exec, stack: Vec::new() }
    }

    /// A copy of the thread, stack included.
    pub fn duplicate(&self) -> (r: Thread)
        ensures
            r@ == self@,
    {
        Thread { coord: self.coord, dir: self.dir, state: self.state, stack: copy_stack(&self.stack) }
    }

    /// A copy of the thread whose heading is turned by `i` eighths.
    pub fn fork(&self, i: i8) -> (r: Thread)
        ensures
            r@ == (ThreadView { dir: self.dir.turned(i as int), ..self@ }),
    {
        let mut new = self.duplicate();
        new.dir.turn(i);
        new
    }

    /// Pushes `n` on the stack.
    pub fn push(&mut self, n: u32)
        ensures
            final(self)@ == (ThreadView { stack: old(self)@.stack.push(n), ..old(self)@ }),
    {
        self.stack.push(n);
    }

    /// Pops the top of the stack; an empty stack gives 0 and stays empty.
    pub fn pop(&mut self) -> (r: u32)
        ensures
            r == top_or_zero(old(self)@.stack),
            final(self)@ == (ThreadView { stack: popped(old(self)@.stack), ..old(self)@ }),
    {
        match self.stack.pop() {
            Some(v) => v,
            None => 0,
        }
    }
}

/// Popping an empty stack gives 0; pushing `v` and popping gives `v` back and
/// leaves the stack as it was.
pub proof fn lemma_stack_law(s: Seq<u32>, v: u32)
    ensures
        top_or_zero(Seq::<u32>::empty()) == 0,
        popped(Seq::<u32>::empty()) == Seq::<u32>::empty(),
        top_or_zero(s.push(v)) == v,
        popped(s.push(v)) == s,
{
    assert(s.push(v).drop_last() =~= s);
}

/// Pushing the values of `vs` one after another and then popping as many times
/// gives them back last first, and leaves the stack as it was.
pub proof fn lemma_stack_lifo(s: Seq<u32>, vs: Seq<u32>)
    ensures
        pop_times(s + vs, vs.len()).0 == vs.reverse(),
        pop_times(s + vs, vs.len()).1 == s,
    decreases vs.len(),
{
    if vs.len() == 0 {
        assert(s + vs =~= s);
        assert(vs.reverse() =~= Seq::<u32>::empty());
    } else {
        let w = vs.drop_last();
        lemma_stack_lifo(s, w);
        assert(popped(s + vs) =~= s + w);
        assert(top_or_zero(s + vs) == vs.last());
        assert(vs.reverse() =~= seq![vs.last()] + w.reverse()) by {
            assert forall|i: int| 0 <= i < vs.len() implies #[trigger] vs.reverse()[i] == (seq![
                vs.last(),
            ] + w.reverse())[i] by {
                if i > 0 {
                    assert(w.reverse()[i - 1] == w[w.len() - 1 - (i - 1)]);
                }
            }
        }
    }
}

/// The values given by `n` pops of `s`, in the order they come, and the stack
/// that is left.
pub open spec fn pop_times(s: Seq<u32>, n: nat) -> (Seq<u32>, Seq<u32>)
    decreases n,
{
    if n == 0 {
        (Seq::empty(), s)
    } else {
        let rest = pop_times(popped(s), (n - 1) as nat);
        (seq![top_or_zero(s)] + rest.0, rest.1)
    }
}

} // verus!
