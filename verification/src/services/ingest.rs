//! Content ingestion: scraped pages and video captions.

use vstd::prelude::*;

verus! {

/// A scraped web page.
#[derive(Debug)]
pub struct ScrapedContent {
    pub url: String,
    pub title: String,
    pub text: String,
}

/// A timed piece of a video's captions. Its start and duration are seconds
/// as `f64`, carried as their IEEE-754 bit patterns.
#[derive(Debug)]
pub struct TranscriptSegment {
    pub start_bits: u64,
    pub duration_bits: u64,
    pub text: String,
}

/// The captions of a video in one language.
#[derive(Debug)]
pub struct Transcript {
    pub video_id: String,
    pub language: String,
    pub segments: Vec<TranscriptSegment>,
}

/// `s` starts at `start_bits`, lasts `duration_bits` and reads `text`.
pub open spec fn segment_is(s: TranscriptSegment, start_bits: u64, duration_bits: u64, text: Seq<char>) -> bool {
    s.start_bits == start_bits && s.duration_bits == duration_bits && s.text@ == text
}

/// Why ingestion failed.
#[derive(Debug)]
pub enum IngestError {
    Scrape(String),
    Caption(String),
}

/// A scraper that returns the same sample article for every URL.
#[derive(Debug)]
pub struct MockScraper;

impl MockScraper {
    /// The sample article, under the requested URL.
    pub fn scrape(&self, url: &str) -> (r: Result<ScrapedContent, IngestError>)
        ensures
            r matches Ok(c) && c.url@ == url@ && c.title@ == "Sample Article"@
                && c.text@ == "This is comprehensible sample text about limits and derivatives in calculus."@,
    {
        Ok(
            ScrapedContent {
                url: url.to_owned(),
                title: "Sample Article".to_owned(),
                text: "This is comprehensible sample text about limits and derivatives in calculus.".to_owned(),
            },
        )
    }
}

/// A caption fetcher that returns the same two English segments for every
/// video.
#[derive(Debug)]
pub struct MockCaptionFetcher;

impl MockCaptionFetcher {
    /// The sample captions, under the requested video: "Welcome to the
    /// lesson." from 0 s for 3 s, then "Today we discuss limits." from 3 s
    /// for 4 s.
    pub fn fetch_captions(&self, video_id: &str) -> (r: Result<Transcript, IngestError>)
        ensures
            r matches Ok(t) && {
                &&& t.video_id@ == video_id@
                &&& t.language@ == "en"@
                &&& t.segments@.len() == 2
                &&& segment_is(t.segments@[0], 0u64, 0x4008000000000000u64, "Welcome to the lesson."@)
                &&& segment_is(t.segments@[1], 0x4008000000000000u64, 0x4010000000000000u64, "Today we discuss limits."@)
            },
    {
        let mut segments: Vec<TranscriptSegment> = Vec::new();
        segments.push(
            TranscriptSegment {
                start_bits: 0u64,
                duration_bits: 0x4008000000000000u64,
                text: "Welcome to the lesson.".to_owned(),
            },
        );
        segments.push(
            TranscriptSegment {
                start_bits: 0x4008000000000000u64,
                duration_bits: 0x4010000000000000u64,
                text: "Today we discuss limits.".to_owned(),
            },
        );
        Ok(Transcript { video_id: video_id.to_owned(), language: "en".to_owned(), segments })
    }
}

} // verus!
