//! What the user has entered for each operation.

use vstd::prelude::*;

verus! {

/// The settings of a merge.
#[derive(Debug, Clone)]
pub struct MergeConfig {
    pub output_filename: String,
    pub editing_output: bool,
}

/// A `MergeConfig` with its text as a character sequence.
pub struct MergeConfigView {
    pub output_filename: Seq<char>,
    pub editing_output: bool,
}

impl View for MergeConfig {
    type V = MergeConfigView;

    open spec fn view(&self) -> MergeConfigView {
        MergeConfigView {
            output_filename: self.output_filename@,
            editing_output: self.editing_output,
        }
    }
}

impl MergeConfigView {
    /// The settings before the user has entered anything.
    pub open spec fn initial() -> MergeConfigView {
        MergeConfigView { output_filename: Seq::empty(), editing_output: false }
    }
}

impl MergeConfig {
    /// The settings before the user has entered anything.
    pub fn new() -> (c: Self)
        ensures
            c@ == MergeConfigView::initial(),
    {
        MergeConfig { output_filename: String::new(), editing_output: false }
    }

    /// Forgets what the user has entered.
    pub fn reset(&mut self)
        ensures
            final(self)@ == MergeConfigView::initial(),
    {
        self.output_filename.clear();
        self.editing_output = false;
    }
}

/// The settings of a deletion of pages.
#[derive(Debug, Clone)]
pub struct DeleteConfig {
    pub pages_to_delete: String,
    pub output_filename: String,
    pub editing_pages: bool,
    pub editing_output: bool,
}

/// A `DeleteConfig` with its texts as character sequences.
pub struct DeleteConfigView {
    pub pages_to_delete: Seq<char>,
    pub output_filename: Seq<char>,
    pub editing_pages: bool,
    pub editing_output: bool,
}

impl View for DeleteConfig {
    type V = DeleteConfigView;

    open spec fn view(&self) -> DeleteConfigView {
        DeleteConfigView {
            pages_to_delete: self.pages_to_delete@,
            output_filename: self.output_filename@,
            editing_pages: self.editing_pages,
            editing_output: self.editing_output,
        }
    }
}

impl DeleteConfigView {
    /// The settings before the user has entered anything.
    pub open spec fn initial() -> DeleteConfigView {
        DeleteConfigView {
            pages_to_delete: Seq::empty(),
            output_filename: Seq::empty(),
            editing_pages: false,
            editing_output: false,
        }
    }
}

impl DeleteConfig {
    /// The settings before the user has entered anything.
    pub fn new() -> (c: Self)
        ensures
            c@ == DeleteConfigView::initial(),
    {
        DeleteConfig {
            pages_to_delete: String::new(),
            output_filename: String::new(),
            editing_pages: false,
            editing_output: false,
        }
    }

    /// Forgets what the user has entered.
    pub fn reset(&mut self)
        ensures
            final(self)@ == DeleteConfigView::initial(),
    {
        self.pages_to_delete.clear();
        self.output_filename.clear();
        self.editing_pages = false;
        self.editing_output = false;
    }
}

/// The settings of a split.
#[derive(Debug, Clone)]
pub struct SplitConfig {
    pub segments: String,
    pub output_prefix: String,
    pub use_named_segments: bool,
    pub editing_segments: bool,
    pub editing_prefix: bool,
}

/// A `SplitConfig` with its texts as character sequences.
pub struct SplitConfigView {
    pub segments: Seq<char>,
    pub output_prefix: Seq<char>,
    pub use_named_segments: bool,
    pub editing_segments: bool,
    pub editing_prefix: bool,
}

impl View for SplitConfig {
    type V = SplitConfigView;

    open spec fn view(&self) -> SplitConfigView {
        SplitConfigView {
            segments: self.segments@,
            output_prefix: self.output_prefix@,
            use_named_segments: self.use_named_segments,
            editing_segments: self.editing_segments,
            editing_prefix: self.editing_prefix,
        }
    }
}

impl SplitConfigView {
    /// The settings before the user has entered anything.
    pub open spec fn initial() -> SplitConfigView {
        SplitConfigView {
            segments: Seq::empty(),
            output_prefix: Seq::empty(),
            use_named_segments: false,
            editing_segments: false,
            editing_prefix: false,
        }
    }
}

impl SplitConfig {
    /// The settings before the user has entered anything.
    pub fn new() -> (c: Self)
        ensures
            c@ == SplitConfigView::initial(),
    {
        SplitConfig {
            segments: String::new(),
            output_prefix: String::new(),
            use_named_segments: false,
            editing_segments: false,
            editing_prefix: false,
        }
    }

    /// Forgets what the user has entered.
    pub fn reset(&mut self)
        ensures
            final(self)@ == SplitConfigView::initial(),
    {
        self.segments.clear();
        self.output_prefix.clear();
        self.use_named_segments = false;
        self.editing_segments = false;
        self.editing_prefix = false;
    }
}

} // verus!
