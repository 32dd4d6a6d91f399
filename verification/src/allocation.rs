//! Storage allocation in one block of memory: static data grows from the
//! bottom, the heap grows from the bottom after it, and the stack grows
//! down from the top.
use vstd::prelude::*;
use crate::text::str_equal;

verus! {

/// The pointers and the symbol table of an allocation system, as
/// mathematical values.
pub struct AllocView {
    pub size: nat,
    pub stack_ptr: int,
    pub heap_ptr: int,
    pub static_ptr: int,
    pub symbols: Seq<(Seq<char>, int)>,
}

/// `table` with `name` bound to `addr`: the binding replaced where there is
/// one, appended otherwise.
pub open spec fn bind(table: Seq<(Seq<char>, int)>, name: Seq<char>, addr: int) -> Seq<(Seq<char>, int)> {
    if exists|i: int| 0 <= i < table.len() && #[trigger] table[i].0 == name {
        table.update(choose|i: int| 0 <= i < table.len() && #[trigger] table[i].0 == name, (name, addr))
    } else {
        table.push((name, addr))
    }
}

/// The state after a stack allocation of `size` and its result: an
/// overflow when the stack pointer is below `size`; otherwise the pointer
/// moves down by `size`, and the allocation fails when it reaches the heap.
pub open spec fn alloc_stack_spec(s: AllocView, size: int) -> (AllocView, Result<int, Seq<char>>) {
    if s.stack_ptr < size {
        (s, Err("Stack Overflow"@))
    } else {
        let s2 = AllocView { stack_ptr: s.stack_ptr - size, ..s };
        if s2.stack_ptr <= s2.heap_ptr {
            (s2, Err("Stack Overflow"@))
        } else {
            (s2, Ok(s2.stack_ptr))
        }
    }
}

/// The state after popping `size` from the stack.
pub open spec fn pop_stack_spec(s: AllocView, size: int) -> AllocView {
    AllocView { stack_ptr: s.stack_ptr + size, ..s }
}

/// The state after a heap allocation of `size` and its result: the heap
/// pointer moves up by `size`, and the allocation fails when it reaches the
/// stack.
pub open spec fn alloc_heap_spec(s: AllocView, size: int) -> (AllocView, Result<int, Seq<char>>) {
    let s2 = AllocView { heap_ptr: s.heap_ptr + size, ..s };
    if s2.heap_ptr >= s2.stack_ptr {
        (s2, Err("Out of Heap Memory"@))
    } else {
        (s2, Ok(s.heap_ptr))
    }
}

/// The state after a static allocation of `size` named `name`, and the
/// address given.
pub open spec fn alloc_static_spec(s: AllocView, name: Seq<char>, size: int) -> (AllocView, int) {
    (AllocView { static_ptr: s.static_ptr + size, symbols: bind(s.symbols, name, s.static_ptr), ..s }, s.static_ptr)
}

/// Popping what a stack allocation took gives back the stack pointer: after
/// `alloc_stack(n)` on a stack with room for `n`, `pop_stack(n)` restores
/// the state, whether or not the allocation reached the heap.
pub proof fn law_pop_undoes_alloc_stack(s: AllocView, n: int)
    requires
        0 <= n <= s.stack_ptr,
    ensures
        pop_stack_spec(alloc_stack_spec(s, n).0, n) == s,
{
}

/// Heap and stack stay apart: a successful heap allocation of `n` cells
/// ends below the stack pointer, and a successful stack allocation starts
/// above the heap pointer; each gives the cells next to what its region
/// held before.
pub proof fn law_regions_do_not_meet(s: AllocView, n: int)
    requires
        0 <= n,
    ensures
        alloc_heap_spec(s, n).1 matches Ok(a) ==> a == s.heap_ptr && a + n < s.stack_ptr,
        alloc_stack_spec(s, n).1 matches Ok(a) ==> a == s.stack_ptr - n && a > s.heap_ptr,
{
}

/// Static storage is handed out without overlap: a second static
/// allocation starts where the first one ends.
pub proof fn law_static_allocations_follow(s: AllocView, n1: Seq<char>, z1: int, n2: Seq<char>, z2: int)
    ensures
        ({
            let (s1, a1) = alloc_static_spec(s, n1, z1);
            let (s2, a2) = alloc_static_spec(s1, n2, z2);
            a2 == a1 + z1 && s2.static_ptr == a2 + z2
        }),
{
}

/// The names with static storage and their addresses, with no name twice.
pub open spec fn names_distinct(t: Seq<(Seq<char>, int)>) -> bool {
    forall|i: int, j: int| 0 <= i < j < t.len() ==> t[i].0 != t[j].0
}

/// An allocation system: the memory, the three pointers, and the addresses
/// of the static names.
pub struct AllocationSystem {
    pub memory: Vec<i32>,
    pub stack_ptr: usize,
    pub heap_ptr: usize,
    pub static_ptr: usize,
    pub symbol_table: Vec<(String, usize)>,
}

impl AllocationSystem {
    /// The state as mathematical values.
    pub open spec fn state(&self) -> AllocView {
        AllocView {
            size: self.memory@.len(),
            stack_ptr: self.stack_ptr as int,
            heap_ptr: self.heap_ptr as int,
            static_ptr: self.static_ptr as int,
            symbols: self.symbol_table@.map_values(|e: (String, usize)| (e.0@, e.1 as int)),
        }
    }

    /// A memory of `memory_size` zeroed cells, the stack at its top, heap
    /// and static data at its bottom.
    pub fn new(memory_size: usize) -> (r: Self)
        requires
            memory_size > 0,
        ensures
            r.memory@ == Seq::new(memory_size as nat, |i: int| 0i32),
            r.stack_ptr == memory_size - 1,
            r.heap_ptr == 0,
            r.static_ptr == 0,
            r.symbol_table@.len() == 0,
    {
        let mut memory: Vec<i32> = Vec::new();
        let mut i: usize = 0;
        while i < memory_size
            invariant
                i <= memory_size,
                memory@ == Seq::new(i as nat, |k: int| 0i32),
            decreases memory_size - i,
        {
            memory.push(0);
            i = i + 1;
            assert(memory@ =~= Seq::new(i as nat, |k: int| 0i32));
        }
        AllocationSystem { memory, stack_ptr: memory_size - 1, heap_ptr: 0, static_ptr: 0, symbol_table: Vec::new() }
    }

    /// Gives `size` cells of static storage to `name` and their address.
    pub fn alloc_static(&mut self, name: &str, size: usize) -> (addr: usize)
        requires
            old(self).static_ptr + size <= usize::MAX,
            names_distinct(old(self).state().symbols),
        ensures
            (final(self).state(), addr as int) == alloc_static_spec(old(self).state(), name@, size as int),
            names_distinct(final(self).state().symbols),
            final(self).memory == old(self).memory,
    {
        let addr = self.static_ptr;
        self.static_ptr = self.static_ptr + size;
        let ghost t0 = old(self).state().symbols;
        let mut i: usize = 0;
        while i < self.symbol_table.len()
            invariant
                t0 == self.symbol_table@.map_values(|e: (String, usize)| (e.0@, e.1 as int)),
                names_distinct(t0),
                i <= t0.len(),
                forall|j: int| 0 <= j < i ==> t0[j].0 != name@,
                self.memory == old(self).memory,
                self.stack_ptr == old(self).stack_ptr,
                self.heap_ptr == old(self).heap_ptr,
                self.static_ptr == old(self).static_ptr + size,
                addr == old(self).static_ptr,
                t0 == old(self).state().symbols,
            decreases t0.len() - i,
        {
            if str_equal(self.symbol_table[i].0.as_str(), name) {
                self.symbol_table.set(i, (name.to_owned(), addr));
                proof {
                    assert(t0[i as int].0 == name@);
                    let c = choose|c: int| 0 <= c < t0.len() && #[trigger] t0[c].0 == name@;
                    if c != i {
                        if c < i {
                            assert(t0[c].0 != name@);
                        } else {
                            assert(t0[i as int].0 != t0[c].0);
                        }
                    }
                    assert(self.state().symbols =~= bind(t0, name@, addr as int));
                }
                return addr;
            }
            i = i + 1;
        }
        self.symbol_table.push((name.to_owned(), addr));
        assert(self.state().symbols =~= bind(t0, name@, addr as int));
        addr
    }

    /// Takes `size` cells from the stack and gives their address.
    pub fn alloc_stack(&mut self, size: usize) -> (r: Result<usize, String>)
        ensures
            (final(self).state(), match r { Ok(a) => Ok(a as int), Err(e) => Err(e@) })
                == alloc_stack_spec(old(self).state(), size as int),
            final(self).memory == old(self).memory,
    {
        if self.stack_ptr < size {
            return Err(String::from_str("Stack Overflow"));
        }
        self.stack_ptr = self.stack_ptr - size;
        if self.stack_ptr <= self.heap_ptr {
            return Err(String::from_str("Stack Overflow"));
        }
        Ok(self.stack_ptr)
    }

    /// Gives `size` cells back to the stack.
    pub fn pop_stack(&mut self, size: usize)
        requires
            old(self).stack_ptr + size <= usize::MAX,
        ensures
            final(self).state() == pop_stack_spec(old(self).state(), size as int),
            final(self).memory == old(self).memory,
    {
        self.stack_ptr = self.stack_ptr + size;
    }

    /// Takes `size` cells from the heap and gives their address.
    pub fn alloc_heap(&mut self, size: usize) -> (r: Result<usize, String>)
        requires
            old(self).heap_ptr + size <= usize::MAX,
        ensures
            (final(self).state(), match r { Ok(a) => Ok(a as int), Err(e) => Err(e@) })
                == alloc_heap_spec(old(self).state(), size as int),
            final(self).memory == old(self).memory,
    {
        let addr = self.heap_ptr;
        self.heap_ptr = self.heap_ptr + size;
        if self.heap_ptr >= self.stack_ptr {
            return Err(String::from_str("Out of Heap Memory"));
        }
        Ok(addr)
    }
}

} // verus!
