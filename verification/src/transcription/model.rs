//! The speech model on disk.

use vstd::prelude::*;
use vstd::string::*;

use crate::paths;
use crate::paths::join_path;

verus! {

/// Where the speech model is downloaded from.
pub const MODEL_URL: &'static str =
    "https://huggingface.co/ggerganov/whisper.cpp/resolve/main/ggml-large-v3-turbo.bin";

/// The file of the speech model.
pub const MODEL_FILENAME: &'static str = "ggml-large-v3-turbo.bin";

/// Where the speech model is kept.
pub fn model_path(models_dir: &str) -> (res: String)
    ensures
        paths::is_place(models_dir@, "ggml-large-v3-turbo.bin"@, res@),
{
    proof {
        reveal_strlit("ggml-large-v3-turbo.bin");
        reveal_strlit(".");
        reveal_strlit("..");
    }
    join_path(models_dir, MODEL_FILENAME)
}

/// How much of a download has come in.
#[derive(Debug, Clone, Copy)]
pub struct DownloadCount {
    pub downloaded: u64,
    pub total: Option<u64>,
}

impl DownloadCount {
    /// A download that has just begun.
    pub fn new(total: Option<u64>) -> (res: DownloadCount)
        ensures
            res.downloaded == 0,
            res.total == total,
    {
        DownloadCount { downloaded: 0, total }
    }

    /// Counts a chunk that came in.
    pub fn add_chunk(&mut self, len: u64)
        requires
            old(self).downloaded + len <= u64::MAX,
        ensures
            final(self).downloaded == old(self).downloaded + len,
            final(self).total == old(self).total,
    {
        self.downloaded = self.downloaded + len;
    }
}

/// A download counts all that has come in, chunk by chunk, and keeps the total that was announced.
pub proof fn law_download_count(
    count: &mut DownloadCount,
    first: u64,
    later: &mut DownloadCount,
    second: u64,
)
    requires
        old(count).downloaded + first + second <= u64::MAX,
        call_ensures(DownloadCount::add_chunk, (count, first), ()),
        *old(later) == *final(count),
        call_ensures(DownloadCount::add_chunk, (later, second), ()),
    ensures
        final(later).downloaded == old(count).downloaded + first + second,
        final(later).total == old(count).total,
{
}

} // verus!
