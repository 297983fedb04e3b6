use vstd::prelude::*;

use crate::text::{lower_of, lowercase, same_text};

verus! {

/// Quality tier of a candidate download, from worst to best.
#[derive(Debug, Clone, Copy, PartialEq, Eq, Structural, Hash)]
pub enum MediaQuality {
    Unknown,
    Cam,
    Telesync,
    _480p,
    _720p,
    _1080p,
    BetterThan1080p,
    _2160p,
    _4320p,
}

impl MediaQuality {
    /// Position of the tier in the total order: `Unknown` is 0, `_4320p` is 8.
    pub open spec fn spec_ordinal(self) -> nat {
        match self {
            MediaQuality::Unknown => 0,
            MediaQuality::Cam => 1,
            MediaQuality::Telesync => 2,
            MediaQuality::_480p => 3,
            MediaQuality::_720p => 4,
            MediaQuality::_1080p => 5,
            MediaQuality::BetterThan1080p => 6,
            MediaQuality::_2160p => 7,
            MediaQuality::_4320p => 8,
        }
    }

    /// The tiers stand in a strict order: Unknown < Cam < Telesync < 480p <
    /// 720p < 1080p < BetterThan1080p < 2160p < 4320p.
    pub proof fn lemma_tier_order()
        ensures
            MediaQuality::Unknown.spec_ordinal() < MediaQuality::Cam.spec_ordinal(),
            MediaQuality::Cam.spec_ordinal() < MediaQuality::Telesync.spec_ordinal(),
            MediaQuality::Telesync.spec_ordinal() < MediaQuality::_480p.spec_ordinal(),
            MediaQuality::_480p.spec_ordinal() < MediaQuality::_720p.spec_ordinal(),
            MediaQuality::_720p.spec_ordinal() < MediaQuality::_1080p.spec_ordinal(),
            MediaQuality::_1080p.spec_ordinal() < MediaQuality::BetterThan1080p.spec_ordinal(),
            MediaQuality::BetterThan1080p.spec_ordinal() < MediaQuality::_2160p.spec_ordinal(),
            MediaQuality::_2160p.spec_ordinal() < MediaQuality::_4320p.spec_ordinal(),
            forall|a: MediaQuality, b: MediaQuality| a.spec_ordinal() == b.spec_ordinal() ==> a == b,
    {
    }

    pub fn ordinal(&self) -> (r: u8)
        ensures
            r as nat == self.spec_ordinal(),
    {
        match self {
            MediaQuality::Unknown => 0,
            MediaQuality::Cam => 1,
            MediaQuality::Telesync => 2,
            MediaQuality::_480p => 3,
            MediaQuality::_720p => 4,
            MediaQuality::_1080p => 5,
            MediaQuality::BetterThan1080p => 6,
            MediaQuality::_2160p => 7,
            MediaQuality::_4320p => 8,
        }
    }

    /// Whether this tier is at or above `floor`.
    pub fn at_least(&self, floor: MediaQuality) -> (r: bool)
        ensures
            r == (self.spec_ordinal() >= floor.spec_ordinal()),
    {
        self.ordinal() >= floor.ordinal()
    }

    pub open spec fn spec_label(self) -> Seq<char> {
        match self {
            MediaQuality::Unknown => "Unknown"@,
            MediaQuality::Cam => "Cam"@,
            MediaQuality::Telesync => "Telesync"@,
            MediaQuality::_480p => "480p"@,
            MediaQuality::_720p => "720p"@,
            MediaQuality::_1080p => "1080p"@,
            MediaQuality::BetterThan1080p => "Better than 1080p"@,
            MediaQuality::_2160p => "2160p"@,
            MediaQuality::_4320p => "4320p"@,
        }
    }

    /// The name under which the tier is shown and stored.
    pub fn label(&self) -> (r: &'static str)
        ensures
            r@ == self.spec_label(),
    {
        match self {
            MediaQuality::Unknown => "Unknown",
            MediaQuality::Cam => "Cam",
            MediaQuality::Telesync => "Telesync",
            MediaQuality::_480p => "480p",
            MediaQuality::_720p => "720p",
            MediaQuality::_1080p => "1080p",
            MediaQuality::BetterThan1080p => "Better than 1080p",
            MediaQuality::_2160p => "2160p",
            MediaQuality::_4320p => "4320p",
        }
    }

    /// The tier that a resolution word of a release title names.
    pub open spec fn spec_from_resolution(w: Seq<char>) -> MediaQuality {
        if w == "480p"@ {
            MediaQuality::_480p
        } else if w == "720p"@ {
            MediaQuality::_720p
        } else if w == "1080p"@ {
            MediaQuality::_1080p
        } else if w == "2160p"@ {
            MediaQuality::_2160p
        } else {
            MediaQuality::Unknown
        }
    }

    /// Reads a resolution word such as `1080p`; any other word is `Unknown`.
    pub fn from_resolution(w: &str) -> (r: MediaQuality)
        ensures
            r == Self::spec_from_resolution(w@),
    {
        if same_text(w, "480p") {
            MediaQuality::_480p
        } else if same_text(w, "720p") {
            MediaQuality::_720p
        } else if same_text(w, "1080p") {
            MediaQuality::_1080p
        } else if same_text(w, "2160p") {
            MediaQuality::_2160p
        } else {
            MediaQuality::Unknown
        }
    }

    /// The tier that the `minimum_quality` setting names.
    pub open spec fn spec_from_config(w: Seq<char>) -> MediaQuality {
        if w == "cam"@ {
            MediaQuality::Cam
        } else if w == "telesync"@ || w == "ts"@ || w == "tele-sync"@ {
            MediaQuality::Telesync
        } else if w == "720p"@ || w == "720"@ {
            MediaQuality::_720p
        } else if w == "1080p"@ || w == "1080"@ {
            MediaQuality::_1080p
        } else if w == "2160p"@ || w == "2160"@ || w == "4k"@ {
            MediaQuality::_2160p
        } else if w == "4320p"@ || w == "4320"@ || w == "8K"@ {
            MediaQuality::_4320p
        } else {
            MediaQuality::Unknown
        }
    }

    /// Reads the `minimum_quality` setting; a name it does not know is `Unknown`,
    /// which lets every tier through.
    pub fn from_config(w: &str) -> (r: MediaQuality)
        ensures
            r == Self::spec_from_config(w@),
    {
        if same_text(w, "cam") {
            MediaQuality::Cam
        } else if same_text(w, "telesync") || same_text(w, "ts") || same_text(w, "tele-sync") {
            MediaQuality::Telesync
        } else if same_text(w, "720p") || same_text(w, "720") {
            MediaQuality::_720p
        } else if same_text(w, "1080p") || same_text(w, "1080") {
            MediaQuality::_1080p
        } else if same_text(w, "2160p") || same_text(w, "2160") || same_text(w, "4k") {
            MediaQuality::_2160p
        } else if same_text(w, "4320p") || same_text(w, "4320") || same_text(w, "8K") {
            MediaQuality::_4320p
        } else {
            MediaQuality::Unknown
        }
    }

    /// The tier that a lowercased quality label of a movie index names.
    pub open spec fn spec_from_movie_label(w: Seq<char>) -> MediaQuality {
        if w == "1080p.x265"@ {
            MediaQuality::BetterThan1080p
        } else {
            Self::spec_from_resolution(w)
        }
    }

    /// Reads a movie index's quality label once lowercased: `1080p.x265` is
    /// `BetterThan1080p`, the plain resolutions are themselves, anything else
    /// is `Unknown`.
    pub fn from_lowered_movie_label(lower: &str) -> (r: MediaQuality)
        ensures
            r == Self::spec_from_movie_label(lower@),
    {
        if same_text(lower, "1080p.x265") {
            MediaQuality::BetterThan1080p
        } else {
            Self::from_resolution(lower)
        }
    }

    /// Reads a movie index's quality label, ignoring case.
    pub fn from_movie_label(label: &str) -> (r: MediaQuality)
        ensures
            r == Self::spec_from_movie_label(lower_of(label@)),
    {
        let lower = lowercase(label);
        Self::from_lowered_movie_label(lower.as_str())
    }
}

} // verus!
