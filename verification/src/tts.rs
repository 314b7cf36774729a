//! Speech synthesis: the mock engine used in tests.
use vstd::prelude::*;
use crate::text::string_of;

verus! {

/// Mock TTS engine for testing: a fixed number of silent samples.
pub struct MockTts {
    voice: String,
    sample_count: usize,
}

impl MockTts {
    /// The voice name the mock reports.
    pub closed spec fn spec_voice(&self) -> Seq<char> {
        self.voice@
    }

    /// The number of samples each synthesis yields.
    pub closed spec fn spec_sample_count(&self) -> usize {
        self.sample_count
    }

    /// A mock named `Mock` that yields `sample_count` samples.
    pub fn new(sample_count: usize) -> (m: Self)
        ensures
            m.spec_voice() == "Mock"@,
            m.spec_sample_count() == sample_count,
    {
        MockTts { voice: string_of("Mock"), sample_count }
    }

    /// The voice name.
    pub fn voice_name(&self) -> (s: &str)
        ensures
            s@ == self.spec_voice(),
    {
        self.voice.as_str()
    }

    /// How many (silent) samples a synthesis yields, whatever the text.
    pub fn sample_count(&self) -> (n: usize)
        ensures
            n == self.spec_sample_count(),
    {
        self.sample_count
    }
}

} // verus!
