//! A lock-free sector allocator, and a handful of small data structures and
//! parsers beside it.
//!
//! The allocator serves requests from a fixed pool of sectors of 4096 bytes.
//! Each sector is cut into 64 chunks and keeps a bitmap of the chunks in use.
//! [`allocator`] holds the shared words in atomics and the algorithms that
//! change them by compare-and-swap, written over [`words`], the accesses that
//! they make. [`bitmap`] decides what to swap from what was read,
//! [`protocol`] and [`activation`] prove what every sequence of successful
//! swaps keeps true, however the threads are interleaved, and [`solo`] holds
//! the words of one thread and the laws of an allocator that is alone.
//!
//! The other modules stand alone: a bounded max-heap ([`heap`]), a sparse
//! matrix in compressed sparse row form ([`csr`]), Conway's game of life
//! ([`life`]), Collatz chains ([`collatz`]), and readers and writers of the
//! formats FIT ([`fit`]), HDF5 ([`hdf5`]), UF2 ([`uf2`]) and fanotify
//! ([`fanotify`]).

pub mod activation;
pub mod allocator;
pub mod bitmap;
pub mod collatz;
pub mod csr;
pub mod fanotify;
pub mod fit;
pub mod hdf5;
pub mod heap;
pub mod life;
pub mod protocol;
pub mod solo;
pub mod uf2;
pub mod words;
