pub mod atomic_counter;
pub mod atomic_ordering;
mod atomics;
pub mod basic_future;
pub mod bump_allocator;
pub mod fd_table;
pub mod green_threads;
pub mod mem_primitives;
pub mod free_list_allocator;
pub mod multi_level_pt;
pub mod page_table_walk;
pub mod pte_flags;
pub mod rwlock_state;
pub mod spinlock;
pub mod stack_coroutine;
pub mod syscall_abi;
