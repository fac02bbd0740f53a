//! Episode synchronisation engine for a podcast downloader: configuration
//! resolution, episode selection, the download ledger, file naming and the
//! decisions behind resumable transfers.

pub mod config;
pub mod episode;
pub mod external;
pub mod ledger;
pub mod namer;
pub mod podcast;
pub mod select;
pub mod transfer;
