# kpte

A page-table engine: a generic walker over typed virtual address spaces, and the
page-table formats of x86_64, aarch64 and riscv64. The library is written in
Verus: what every function does is stated in its contract and proved.

## Layout

- `src/addr.rs`, `src/error.rs`, `src/meta.rs`: addresses, errors, page sizes,
  access flags and memory attributes.
- `src/paging.rs`: the traits that a format, a geometry, a TLB, an address-space
  activator and a frame allocator implement.
- `src/mapping.rs`: what a caller asks for and gets: backings, flags, mappings.
- `src/tree.rs`: the model of a page table: words in frames that form a tree.
- `src/plan.rs`: how a request is cut into leaves.
- `src/effect.rs`, `src/request.rs`: what each operation does to the model.
- `src/flush.rs`: the queue of pending TLB invalidations.
- `src/walker.rs`, `src/cursor.rs`, `src/reclaim.rs`, `src/page_table.rs`: the
  walker, its batching cursor, teardown, and the trait over all of it.
- `src/geometry.rs`, `src/laws.rs`, `src/alignment.rs`, `src/encoding.rs`: what
  holds across operations, proved of every format and geometry at once.
- `src/arch/`: the concrete formats, each with laws of its own.
- `app/`: the parts that touch hardware: table memory behind a direct map,
  privileged instructions, translation registers, device access.
- `tests/`: the library at work on the host.

## The model

A walker owns a frame allocator. Its view is a `TreeView`: the words of all live
frames, the tables of the tree with the slots that lead to each, the log of calls
made to the allocator, and the memory that each call and each write left behind.
The last lets contracts say what others who walk the tables see meanwhile. Every
operation is specified as a relation between the view before and after, its
result, and the invalidations it issues.

Formats are given by specification functions on 64-bit words, geometries by
their constants, shifts and index widths. `layout_ok` and `formats_ok` say when
the walker can work with a pair of them; the laws under `src/arch/` prove both
for every concrete choice.

Addresses and byte counts are 64 bits wide.
