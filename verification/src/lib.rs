//! Pixel-art DNA: a 64 x 64 grid of 6-bit pixel codes, the forms in which
//! it is stored and shown, and the rules by which it is fetched and
//! rendered.
//!
//! * [`bits`]: binary digits, lowest first, written and read back.
//! * [`dna`]: the grid as 24,576 bits, its pixel rows and its flat base64
//!   encoding.
//! * [`tree`]: the grid as a tree of 25 storage nodes of at most 1023 bits
//!   and four children.
//! * [`boc`]: the frame of a serialized bag of cells, tested before the
//!   cell library is handed the bytes.
//! * [`cell`]: the tree as cells of the TON blockchain and as a serialized
//!   bag of cells; the messages and addresses made of cells.
//! * [`dict`]: the dictionary of a store's offers, tested before the cell
//!   library is handed its cells.
//! * [`palette`], [`render`], [`parse`]: the 64 colours, painting a grid as
//!   an image and reading a grid from an image.
//! * [`codec`]: the codec as a drawing tool calls it.
//! * [`task`], [`viewer`]: the queries of the viewer service, and the client
//!   that queues them, sends one at a time and retries when the service is
//!   over capacity.
//! * [`pipeline`], [`storage`]: the steps of a render request with the blob
//!   store as its cache, and the keys of the blobs.
//! * [`encoding`], [`imaging`]: what other crates compute: base64, digests,
//!   numbers in text, image containers.
//!
//! Nothing in this crate reads, sends or waits. Where work of that kind is
//! decided on, a function says what is to be done, and the caller does it.

pub mod bits;
pub mod boc;
pub mod cell;
pub mod codec;
pub mod dict;
pub mod dna;
pub mod encoding;
pub mod imaging;
pub mod palette;
pub mod parse;
pub mod pipeline;
pub mod render;
pub mod storage;
pub mod task;
pub mod tree;
pub mod viewer;
