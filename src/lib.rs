/// The errors that end a run.
pub mod error;
/// Decoding an input line into a card request, and the request's address.
pub mod line;
/// Reading card responses through serde_json.
pub mod json;
/// Card faces, the two response shapes, and replication by count.
pub mod face;
/// Cutting a run of faces into print pages.
pub mod page;
/// Writing pages out as a printable document.
pub mod render;
/// The faces gathered over a run, and the finished document.
pub mod deck;
