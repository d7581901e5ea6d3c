//! Xtream Codes API data: the records the panel returns, the error kinds of
//! the client, and the URLs it calls.
pub mod client;
pub mod error;
pub mod types;
pub mod url;

pub use client::XtreamClient;
pub use error::XtreamError;
pub use types::{
    SeriesDetail, SeriesEpisode, SeriesInfoMeta, SeriesListing, VodCategory, VodStream,
};
