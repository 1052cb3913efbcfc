//! Log levels, their colors, and the address ranges of the string table that
//! tell the level of an interned string.

use vstd::prelude::*;
use vstd::string::*;

verus! {

/// A color as red, green and blue.
#[derive(Clone, Copy, Debug, PartialEq, Eq, Structural)]
pub struct Rgb(pub u8, pub u8, pub u8);

/// The level of a log entry. `Unknown` is the level of a string that lies in
/// no known range.
#[derive(Clone, Copy, Debug, PartialEq, Eq, Structural)]
pub enum LogLevel {
    Debug,
    Info,
    Warning,
    Error,
    Unknown,
}

/// The color in which entries of `level` are shown.
pub open spec fn level_color(level: LogLevel) -> Rgb {
    match level {
        LogLevel::Debug => Rgb(0, 255, 0),
        LogLevel::Info => Rgb(255, 255, 0),
        LogLevel::Warning => Rgb(255, 165, 0),
        LogLevel::Error => Rgb(205, 0, 0),
        LogLevel::Unknown => Rgb(255, 0, 0),
    }
}

/// The name of `level`, as it stands in the boundary symbols of a firmware
/// image and before each entry.
pub open spec fn level_label(level: LogLevel) -> Seq<char> {
    match level {
        LogLevel::Debug => "Debug"@,
        LogLevel::Info => "Info"@,
        LogLevel::Warning => "Warning"@,
        LogLevel::Error => "Error"@,
        LogLevel::Unknown => "Unknown"@,
    }
}

/// The color in which entries of `level` are shown.
pub fn color_for_level(level: LogLevel) -> (color: Rgb)
    ensures
        color == level_color(level),
{
    match level {
        LogLevel::Debug => Rgb(0, 255, 0),
        LogLevel::Info => Rgb(255, 255, 0),
        LogLevel::Warning => Rgb(255, 165, 0),
        LogLevel::Error => Rgb(205, 0, 0),
        LogLevel::Unknown => Rgb(255, 0, 0),
    }
}

impl LogLevel {
    /// The name of the level.
    pub fn label(&self) -> (name: &'static str)
        ensures
            name@ == level_label(*self),
    {
        match self {
            LogLevel::Debug => "Debug",
            LogLevel::Info => "Info",
            LogLevel::Warning => "Warning",
            LogLevel::Error => "Error",
            LogLevel::Unknown => "Unknown",
        }
    }
}

/// No two levels share a color; the color of `Unknown` in particular is that
/// of no other level.
pub proof fn lemma_level_colors_differ(a: LogLevel, b: LogLevel)
    ensures
        level_color(a) == level_color(b) <==> a == b,
{
}

/// A range `[start, end)` of addresses in the string table whose strings
/// belong to one log level.
#[derive(Debug, PartialEq, Eq)]
pub struct LogSection {
    pub label: String,
    pub color: Rgb,
    pub start: u32,
    pub end: u32,
}

/// The mathematical value of a `LogSection`.
pub struct LogSectionView {
    pub label: Seq<char>,
    pub color: Rgb,
    pub start: u32,
    pub end: u32,
}

impl View for LogSection {
    type V = LogSectionView;

    open spec fn view(&self) -> LogSectionView {
        LogSectionView { label: self.label@, color: self.color, start: self.start, end: self.end }
    }
}

impl LogSectionView {
    /// Whether `pointer` lies in the range.
    pub open spec fn holds(self, pointer: u32) -> bool {
        self.start <= pointer < self.end
    }

    /// Whether the two ranges have no address in common.
    pub open spec fn apart_from(self, other: LogSectionView) -> bool {
        forall|pointer: u32| !(self.holds(pointer) && other.holds(pointer))
    }
}

/// The section that stands for a string outside every known range.
pub open spec fn unknown_section() -> LogSectionView {
    LogSectionView {
        label: level_label(LogLevel::Unknown),
        color: level_color(LogLevel::Unknown),
        start: 0,
        end: 0,
    }
}

/// The values of a list of sections.
pub open spec fn section_views(sections: Seq<LogSection>) -> Seq<LogSectionView> {
    Seq::new(sections.len(), |i: int| sections[i]@)
}

/// The index of the first section that holds `pointer`, or the number of
/// sections when none does.
pub open spec fn first_holding(sections: Seq<LogSectionView>, pointer: u32) -> int
    decreases sections.len(),
{
    if sections.len() == 0 || sections[0].holds(pointer) {
        0
    } else {
        1 + first_holding(sections.skip(1), pointer)
    }
}

/// The section that `pointer` belongs to: the first one in the list that
/// holds it, or the unknown section when none does.
pub open spec fn classify(sections: Seq<LogSectionView>, pointer: u32) -> LogSectionView {
    if first_holding(sections, pointer) < sections.len() {
        sections[first_holding(sections, pointer)]
    } else {
        unknown_section()
    }
}

/// Whether no two sections of the list overlap.
pub open spec fn well_formed(sections: Seq<LogSectionView>) -> bool {
    forall|i: int, j: int|
        0 <= i < j < sections.len() ==> (#[trigger] sections[i]).apart_from(#[trigger] sections[j])
}

/// `first_holding` lies within the list, no section before it holds the
/// pointer, and the section at it does unless it is the length.
pub proof fn lemma_first_holding(sections: Seq<LogSectionView>, pointer: u32)
    ensures
        0 <= first_holding(sections, pointer) <= sections.len(),
        forall|i: int|
            0 <= i < first_holding(sections, pointer) ==> !(#[trigger] sections[i]).holds(pointer),
        first_holding(sections, pointer) < sections.len() ==> sections[first_holding(
            sections,
            pointer,
        )].holds(pointer),
    decreases sections.len(),
{
    if sections.len() == 0 || sections[0].holds(pointer) {
    } else {
        let rest = sections.skip(1);
        lemma_first_holding(rest, pointer);
        assert forall|i: int| 0 <= i < first_holding(sections, pointer) implies !(
        #[trigger] sections[i]).holds(pointer) by {
            if i > 0 {
                assert(sections[i] == rest[i - 1]);
            }
        }
        assert(first_holding(sections, pointer) < sections.len() ==> sections[first_holding(
            sections,
            pointer,
        )] == rest[first_holding(rest, pointer)]);
    }
}

/// An index with the properties of `first_holding` is `first_holding`.
pub proof fn lemma_first_holding_unique(sections: Seq<LogSectionView>, pointer: u32, k: int)
    requires
        0 <= k <= sections.len(),
        forall|i: int| 0 <= i < k ==> !(#[trigger] sections[i]).holds(pointer),
        k < sections.len() ==> sections[k].holds(pointer),
    ensures
        first_holding(sections, pointer) == k,
    decreases sections.len(),
{
    if sections.len() == 0 || sections[0].holds(pointer) {
    } else {
        let rest = sections.skip(1);
        assert forall|i: int| 0 <= i < k - 1 implies !(#[trigger] rest[i]).holds(pointer) by {
            assert(rest[i] == sections[i + 1]);
        }
        lemma_first_holding_unique(rest, pointer, k - 1);
    }
}

/// Classification gives a section of the list that holds the pointer and
/// that no holding section precedes, or the unknown section, and this exactly
/// when no section of the list holds the pointer.
pub proof fn lemma_classify_first_match(sections: Seq<LogSectionView>, pointer: u32)
    ensures
        (exists|i: int| 0 <= i < sections.len() && (#[trigger] sections[i]).holds(pointer)) ==> {
            let k = first_holding(sections, pointer);
            &&& 0 <= k < sections.len()
            &&& classify(sections, pointer) == sections[k]
            &&& sections[k].holds(pointer)
            &&& forall|i: int| 0 <= i < k ==> !(#[trigger] sections[i]).holds(pointer)
        },
        (forall|i: int| 0 <= i < sections.len() ==> !(#[trigger] sections[i]).holds(pointer))
            ==> classify(sections, pointer) == unknown_section(),
{
    lemma_first_holding(sections, pointer);
}

/// Where no two sections overlap, a pointer belongs to the one section that
/// holds it: whichever section of the list holds the pointer is the result.
pub proof fn lemma_classify_unique(sections: Seq<LogSectionView>, pointer: u32, i: int)
    requires
        well_formed(sections),
        0 <= i < sections.len(),
        sections[i].holds(pointer),
    ensures
        classify(sections, pointer) == sections[i],
        forall|j: int|
            0 <= j < sections.len() && (#[trigger] sections[j]).holds(pointer) ==> j == i,
{
    lemma_first_holding(sections, pointer);
    assert forall|j: int| 0 <= j < sections.len() && (#[trigger] sections[j]).holds(
        pointer,
    ) implies j == i by {
        if j < i {
            assert(sections[j].apart_from(sections[i]));
        } else if i < j {
            assert(sections[i].apart_from(sections[j]));
        }
    }
}

/// The string table of a firmware image with the ranges of its log levels.
#[derive(Debug, PartialEq, Eq)]
pub struct InternedStringInfo {
    pub strings: Vec<u8>,
    pub log_sections: Vec<LogSection>,
}

/// The mathematical value of an `InternedStringInfo`.
pub struct InternedStringInfoView {
    pub strings: Seq<u8>,
    pub log_sections: Seq<LogSectionView>,
}

impl View for InternedStringInfo {
    type V = InternedStringInfoView;

    open spec fn view(&self) -> InternedStringInfoView {
        InternedStringInfoView {
            strings: self.strings@,
            log_sections: section_views(self.log_sections@),
        }
    }
}

impl LogSection {
    /// The section that stands for a string outside every known range.
    pub fn unknown() -> (section: LogSection)
        ensures
            section@ == unknown_section(),
    {
        LogSection {
            label: String::from_str(LogLevel::Unknown.label()),
            color: color_for_level(LogLevel::Unknown),
            start: 0,
            end: 0,
        }
    }

    /// Whether `pointer` lies in the range of the section.
    pub fn contains(&self, pointer: u32) -> (inside: bool)
        ensures
            inside == self@.holds(pointer),
    {
        self.start <= pointer && pointer < self.end
    }
}

/// Finds the section that the string at `str_ptr` belongs to: the first
/// section of the list whose range holds the pointer. A pointer that lies in
/// no range belongs to the unknown section.
pub fn get_log_section(
    interned_string_info: &InternedStringInfo,
    str_ptr: u32,
) -> (section: LogSection)
    ensures
        section@ == classify(interned_string_info@.log_sections, str_ptr),
{
    let sections = &interned_string_info.log_sections;
    let ghost views = section_views(sections@);
    let mut at: usize = 0;
    while at < sections.len()
        invariant
            at <= sections@.len(),
            views == section_views(sections@),
            views == interned_string_info@.log_sections,
            forall|i: int| 0 <= i < at ==> !(#[trigger] views[i]).holds(str_ptr),
        decreases sections@.len() - at,
    {
        let candidate = &sections[at];
        assert(views[at as int] == candidate@);
        if candidate.contains(str_ptr) {
            proof {
                lemma_first_holding_unique(views, str_ptr, at as int);
            }
            return LogSection {
                label: candidate.label.clone(),
                color: candidate.color,
                start: candidate.start,
                end: candidate.end,
            };
        }
        at += 1;
    }
    proof {
        lemma_first_holding_unique(views, str_ptr, at as int);
    }
    LogSection::unknown()
}

} // verus!
