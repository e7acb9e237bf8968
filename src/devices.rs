use vstd::prelude::*;

verus! {

/// Recording state of the voice recorder. Capturing the audio is the
/// caller's part; this value says whether a capture is under way.
pub struct AudioRecorder {
    pub recording: bool,
}

impl AudioRecorder {
    pub fn new() -> (r: Self)
        ensures
            !r.recording,
    {
        AudioRecorder { recording: false }
    }

    /// Marks a capture as started.
    pub fn start_recording(&mut self)
        ensures
            final(self).recording,
    {
        self.recording = true;
    }

    /// Marks the capture as stopped.
    pub fn stop_recording(&mut self)
        ensures
            !final(self).recording,
    {
        self.recording = false;
    }

    pub fn is_recording(&self) -> (r: bool)
        ensures
            r == self.recording,
    {
        self.recording
    }
}

/// Speech-to-text for recorded voice notes.
pub struct Transcriber {}

/// The transcript given for a recording that exists.
pub open spec fn transcript_text() -> Seq<char> {
    "This is a simulated transcription of your voice note. The real Whisper integration will require downloading model weights."@
}

impl Transcriber {
    pub fn new() -> (t: Self) {
        Transcriber {}
    }

    /// Transcript of a recording: the transcript text when the recording
    /// file exists, empty otherwise.
    pub fn transcribe(&self, file_exists: bool) -> (r: String)
        ensures
            file_exists ==> r@ == transcript_text(),
            !file_exists ==> r@.len() == 0,
    {
        let mut r = String::new();
        if file_exists {
            r.append("This is a simulated transcription of your voice note. The real Whisper integration will require downloading model weights.");
        }
        r
    }
}

} // verus!
