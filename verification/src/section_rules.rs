//! Rules that say what is done with the sections of input files.
use crate::bytes::{bytes_equal, bytes_start_with, copy_bytes};
use crate::expression::{Expression, SymbolLoc};
use crate::glob_patterns;
use crate::glob_patterns::{check_pattern, match_pattern};
use crate::hash_maps::IdMap;
use crate::output_section_id::OutputSectionId;
use crate::output_sections::OnlyIf;
use vstd::prelude::*;

verus! {

/// What the name of a section is compared to.
#[derive(Debug)]
pub enum SectionNameMatcher<'data> {
    /// The name is exactly this.
    Exact(Vec<u8>),
    /// The name starts with this.
    Prefix(&'data [u8]),
    /// The name matches this pattern.
    Glob(&'data [u8]),
}

/// How a rule sends sections to an output section.
#[derive(Clone, Copy, Debug, PartialEq, Eq, Structural)]
pub struct RuleOutputInfo {
    pub section_id: OutputSectionId,
    pub must_keep: bool,
    pub sorted: bool,
    pub sort_by_init_priority: bool,
    pub sort_by_alignment: bool,
    /// Place inputs in the order of the command line, each at its own alignment.
    pub input_order: bool,
}

/// What is done with a section.
#[derive(Clone, Copy, Debug, PartialEq, Eq, Structural)]
pub enum SectionRuleOutcome {
    Section(RuleOutputInfo),
    Discard,
    Custom,
    EhFrame,
    NoteGnuProperty,
    NoteGnuStack,
    Debug,
    DebugIndex,
    RiscVAttribute,
    SortedSection(RuleOutputInfo),
}

/// A rule that says what is done with some sections.
#[derive(Debug)]
pub struct SectionRule<'data> {
    pub name_matcher: SectionNameMatcher<'data>,
    /// The name of the file matches this pattern. `None` if any file will do.
    pub input_file_pattern: Option<&'data [u8]>,
    /// The name of the file matches none of these patterns.
    pub exclude_file_patterns: Vec<&'data [u8]>,
    pub outcome: SectionRuleOutcome,
    pub only_if: Option<OnlyIf>,
    /// The output section that the rule's condition is about.
    pub only_if_section_id: Option<OutputSectionId>,
}

/// What is known of the pattern for the name of a section.
#[derive(Debug)]
pub enum PatternKind {
    /// It holds no wildcards.
    Exact,
    /// It holds no wildcards besides those that stand for themselves. Without what marks them as
    /// such, it is this.
    EscapedExact(Vec<u8>),
    /// It holds wildcards.
    Wildcards,
}

/// A pattern is malformed.
#[derive(Clone, Copy, Debug, PartialEq, Eq, Structural)]
pub struct InvalidPattern;

impl RuleOutputInfo {
    /// The rule itself asks for no order of the sections.
    pub open spec fn unsorted(section_id: OutputSectionId, must_keep: bool) -> RuleOutputInfo {
        RuleOutputInfo {
            section_id,
            must_keep,
            sorted: false,
            sort_by_init_priority: false,
            sort_by_alignment: false,
            input_order: false,
        }
    }

    /// Sections that may be left out if nothing refers to them.
    pub fn regular(section_id: OutputSectionId) -> (info: RuleOutputInfo)
        ensures
            info == RuleOutputInfo::unsorted(section_id, false),
    {
        RuleOutputInfo {
            section_id,
            must_keep: false,
            sorted: false,
            sort_by_init_priority: false,
            sort_by_alignment: false,
            input_order: false,
        }
    }

    /// Sections that are kept in any case.
    pub fn keep(section_id: OutputSectionId) -> (info: RuleOutputInfo)
        ensures
            info == RuleOutputInfo::unsorted(section_id, true),
    {
        RuleOutputInfo {
            section_id,
            must_keep: true,
            sorted: false,
            sort_by_init_priority: false,
            sort_by_alignment: false,
            input_order: false,
        }
    }
}

impl<'data> SectionNameMatcher<'data> {
    /// The bytes that rules are found by.
    pub open spec fn spec_prefix_bytes(&self) -> Seq<u8> {
        match self {
            SectionNameMatcher::Exact(name) => name@,
            SectionNameMatcher::Prefix(name) => name@,
            SectionNameMatcher::Glob(name) => name@,
        }
    }

    /// The bytes that rules are found by.
    pub fn prefix_bytes(&self) -> (bytes: &[u8])
        ensures
            bytes@ == self.spec_prefix_bytes(),
    {
        match self {
            SectionNameMatcher::Exact(name) => name.as_slice(),
            SectionNameMatcher::Prefix(name) => *name,
            SectionNameMatcher::Glob(name) => *name,
        }
    }

    /// Whether a name is one that the rule is about.
    pub open spec fn accepts(&self, section_name: Seq<u8>) -> bool {
        match self {
            SectionNameMatcher::Exact(name) => section_name == name@,
            SectionNameMatcher::Prefix(prefix) => prefix@.len() <= section_name.len()
                && section_name.take(prefix@.len() as int) == prefix@,
            SectionNameMatcher::Glob(pattern) => glob_patterns::pattern_matches(
                pattern@,
                section_name,
            ),
        }
    }

    /// Whether a name is one that the rule is about.
    pub fn matches_name(&self, section_name: &[u8]) -> (matched: bool)
        ensures
            matched == self.accepts(section_name@),
    {
        match self {
            SectionNameMatcher::Exact(name) => bytes_equal(section_name, name.as_slice()),
            SectionNameMatcher::Prefix(prefix) => bytes_start_with(section_name, *prefix),
            SectionNameMatcher::Glob(pattern) => match_pattern(*pattern, section_name),
        }
    }
}

/// Whether the name of a file matches one of the patterns.
pub open spec fn any_matches(patterns: Seq<&[u8]>, name: Seq<u8>) -> bool {
    exists|i: int|
        0 <= i < patterns.len() && glob_patterns::pattern_matches(
            (#[trigger] patterns[i])@,
            name,
        )
}

impl<'data> SectionRule<'data> {
    /// Whether the rule leaves a file out.
    pub open spec fn excludes(&self, file_name: Option<&[u8]>) -> bool {
        file_name matches Some(name) && any_matches(self.exclude_file_patterns@, name@)
    }

    /// Whether the rule is about a section of a file. If the name of the file is not known, only
    /// rules for all files are about it.
    pub open spec fn applies(&self, section_name: Seq<u8>, file_name: Option<&[u8]>) -> bool {
        &&& self.name_matcher.accepts(section_name)
        &&& match self.input_file_pattern {
            None => true,
            Some(pattern) => file_name matches Some(name) && glob_patterns::pattern_matches(
                pattern@,
                name@,
            ),
        }
        &&& !self.excludes(file_name)
    }

    /// A rule for the sections that a pattern matches. `kind` says what is known of the pattern.
    pub fn new(
        pattern: &'data [u8],
        kind: PatternKind,
        input_file_pattern: Option<&'data [u8]>,
        outcome: SectionRuleOutcome,
    ) -> (result: Result<SectionRule<'data>, InvalidPattern>)
        ensures
            ({
                let file_is_valid = input_file_pattern matches Some(file)
                    ==> glob_patterns::is_pattern(file@);
                let name_is_valid = kind is Wildcards ==> glob_patterns::is_pattern(pattern@);
                match result {
                    Ok(rule) => {
                        &&& file_is_valid && name_is_valid
                        &&& match kind {
                            PatternKind::Exact => rule.name_matcher matches
                                SectionNameMatcher::Exact(name) && name@ == pattern@,
                            PatternKind::EscapedExact(unescaped) => rule.name_matcher
                                == SectionNameMatcher::<'data>::Exact(unescaped),
                            PatternKind::Wildcards => rule.name_matcher
                                == SectionNameMatcher::Glob(pattern),
                        }
                        &&& rule.input_file_pattern == input_file_pattern
                        &&& rule.exclude_file_patterns@.len() == 0
                        &&& rule.outcome == outcome
                        &&& rule.only_if is None
                        &&& rule.only_if_section_id is None
                    },
                    Err(_) => !(file_is_valid && name_is_valid),
                }
            }),
    {
        if let Some(file) = input_file_pattern {
            if !check_pattern(file) {
                return Err(InvalidPattern);
            }
        }
        let name_matcher: SectionNameMatcher<'data> = match kind {
            PatternKind::Exact => SectionNameMatcher::Exact(copy_bytes(pattern)),
            PatternKind::EscapedExact(unescaped) => SectionNameMatcher::Exact(unescaped),
            PatternKind::Wildcards => {
                if !check_pattern(pattern) {
                    return Err(InvalidPattern);
                }
                SectionNameMatcher::Glob(pattern)
            },
        };
        Ok(
            SectionRule {
                name_matcher,
                input_file_pattern,
                exclude_file_patterns: Vec::new(),
                outcome,
                only_if: None,
                only_if_section_id: None,
            },
        )
    }

    /// The rule with a condition on the output section.
    pub fn with_only_if(self, only_if: Option<OnlyIf>, section_id: OutputSectionId) -> (rule:
        SectionRule<'data>)
        ensures
            rule == (SectionRule {
                only_if,
                only_if_section_id: if only_if is Some {
                    Some(section_id)
                } else {
                    self.only_if_section_id
                },
                ..self
            }),
    {
        let mut rule: SectionRule<'data> = self;
        rule.only_if = only_if;
        if only_if.is_some() {
            rule.only_if_section_id = Some(section_id);
        }
        rule
    }

    /// The rule without the files that one of the patterns matches.
    pub fn with_excludes(self, patterns: &Vec<&'data [u8]>) -> (result: Result<
        SectionRule<'data>,
        InvalidPattern,
    >)
        ensures
            match result {
                Ok(rule) => {
                    &&& forall|i: int|
                        0 <= i < patterns@.len() ==> glob_patterns::is_pattern(
                            (#[trigger] patterns@[i])@,
                        )
                    &&& rule.exclude_file_patterns@ == patterns@
                    &&& rule == (SectionRule {
                        exclude_file_patterns: rule.exclude_file_patterns,
                        ..self
                    })
                },
                Err(_) => exists|i: int|
                    0 <= i < patterns@.len() && !glob_patterns::is_pattern(
                        (#[trigger] patterns@[i])@,
                    ),
            },
    {
        let mut rule: SectionRule<'data> = self;
        let mut excluded: Vec<&'data [u8]> = Vec::new();
        let mut i: usize = 0;
        while i < patterns.len()
            invariant
                i <= patterns@.len(),
                excluded@ == patterns@.take(i as int),
                forall|k: int|
                    0 <= k < i ==> glob_patterns::is_pattern((#[trigger] patterns@[k])@),
            decreases patterns@.len() - i,
        {
            if !check_pattern(patterns[i]) {
                assert(!glob_patterns::is_pattern(patterns@[i as int]@));
                return Err(InvalidPattern);
            }
            excluded.push(patterns[i]);
            assert(excluded@ =~= patterns@.take(i + 1));
            i = i + 1;
        }
        assert(patterns@.take(patterns@.len() as int) =~= patterns@);
        rule.exclude_file_patterns = excluded;
        Ok(rule)
    }

    /// Whether the rule leaves a file out.
    fn file_is_excluded(&self, file_name: Option<&[u8]>) -> (excluded: bool)
        ensures
            excluded == self.excludes(file_name),
    {
        let name: &[u8] = match file_name {
            Some(name) => name,
            None => {
                return false;
            },
        };
        let mut i: usize = 0;
        while i < self.exclude_file_patterns.len()
            invariant
                i <= self.exclude_file_patterns@.len(),
                file_name == Some(name),
                forall|k: int|
                    0 <= k < i ==> !glob_patterns::pattern_matches(
                        (#[trigger] self.exclude_file_patterns@[k])@,
                        name@,
                    ),
            decreases self.exclude_file_patterns@.len() - i,
        {
            if match_pattern(self.exclude_file_patterns[i], name) {
                assert(glob_patterns::pattern_matches(
                    self.exclude_file_patterns@[i as int]@,
                    name@,
                ));
                return true;
            }
            i = i + 1;
        }
        false
    }

    /// Whether the rule is about a section of a file.
    pub fn matches(&self, section_name: &[u8], file_name: Option<&[u8]>) -> (matched: bool)
        ensures
            matched == self.applies(section_name@, file_name),
    {
        if !self.name_matcher.matches_name(section_name) {
            return false;
        }
        match self.input_file_pattern {
            None => !self.file_is_excluded(file_name),
            Some(pattern) => match file_name {
                None => false,
                Some(name) => match_pattern(pattern, name) && !self.file_is_excluded(file_name),
            },
        }
    }

    /// Whether a rule is unconditional: it is about all files and has the given outcome.
    pub open spec fn is_plain(&self, outcome: SectionRuleOutcome) -> bool {
        &&& self.input_file_pattern is None
        &&& self.exclude_file_patterns@.len() == 0
        &&& self.outcome == outcome
        &&& self.only_if is None
        &&& self.only_if_section_id is None
    }

    /// A rule for sections with the given name.
    pub fn exact(name: &'data [u8], outcome: SectionRuleOutcome) -> (rule: SectionRule<'data>)
        ensures
            rule.name_matcher matches SectionNameMatcher::Exact(own) && own@ == name@,
            rule.is_plain(outcome),
    {
        SectionRule {
            name_matcher: SectionNameMatcher::Exact(copy_bytes(name)),
            input_file_pattern: None,
            exclude_file_patterns: Vec::new(),
            outcome,
            only_if: None,
            only_if_section_id: None,
        }
    }

    /// A rule for sections whose names start with the given bytes.
    pub fn prefix(name: &'data [u8], outcome: SectionRuleOutcome) -> (rule: SectionRule<'data>)
        ensures
            rule.name_matcher == SectionNameMatcher::Prefix(name),
            rule.is_plain(outcome),
    {
        SectionRule {
            name_matcher: SectionNameMatcher::Prefix(name),
            input_file_pattern: None,
            exclude_file_patterns: Vec::new(),
            outcome,
            only_if: None,
            only_if_section_id: None,
        }
    }

    /// Sends sections with the given name to an output section.
    pub fn exact_section(name: &'data [u8], section_id: OutputSectionId) -> (rule: SectionRule<
        'data,
    >)
        ensures
            rule.name_matcher matches SectionNameMatcher::Exact(own) && own@ == name@,
            rule.is_plain(
                SectionRuleOutcome::Section(RuleOutputInfo::unsorted(section_id, false)),
            ),
    {
        SectionRule::exact(name, SectionRuleOutcome::Section(RuleOutputInfo::regular(section_id)))
    }

    /// Sends sections with the given name to an output section, and keeps them in any case.
    pub fn exact_section_keep(name: &'data [u8], section_id: OutputSectionId) -> (rule: SectionRule<
        'data,
    >)
        ensures
            rule.name_matcher matches SectionNameMatcher::Exact(own) && own@ == name@,
            rule.is_plain(
                SectionRuleOutcome::Section(RuleOutputInfo::unsorted(section_id, true)),
            ),
    {
        SectionRule::exact(name, SectionRuleOutcome::Section(RuleOutputInfo::keep(section_id)))
    }

    /// Sends sections whose names start with the given bytes to an output section.
    pub fn prefix_section(name: &'data [u8], section_id: OutputSectionId) -> (rule: SectionRule<
        'data,
    >)
        ensures
            rule.name_matcher == SectionNameMatcher::Prefix(name),
            rule.is_plain(
                SectionRuleOutcome::Section(RuleOutputInfo::unsorted(section_id, false)),
            ),
    {
        SectionRule::prefix(
            name,
            SectionRuleOutcome::Section(RuleOutputInfo::regular(section_id)),
        )
    }

    /// Sends sections whose names start with the given bytes to an output section that is sorted.
    pub fn prefix_section_sort(name: &'data [u8], section_id: OutputSectionId) -> (rule:
        SectionRule<'data>)
        ensures
            rule.name_matcher == SectionNameMatcher::Prefix(name),
            rule.is_plain(
                SectionRuleOutcome::SortedSection(RuleOutputInfo::unsorted(section_id, true)),
            ),
    {
        SectionRule::prefix(
            name,
            SectionRuleOutcome::SortedSection(RuleOutputInfo::keep(section_id)),
        )
    }

    /// Whether the condition on the output section holds. `writable_sections` holds the sections
    /// that something writable goes to.
    pub fn allows_only_if(&self, writable_sections: &IdMap) -> (allowed: bool)
        ensures
            allowed == (match self.only_if {
                None => true,
                Some(only_if) => {
                    let writable = self.only_if_section_id matches Some(id)
                        && writable_sections@.contains_key(id.0 as u64);
                    (only_if is Rw) == writable
                },
            }),
    {
        let writable: bool = match self.only_if_section_id {
            Some(id) => writable_sections.contains_key(id.0 as u64),
            None => false,
        };
        match self.only_if {
            None => true,
            Some(OnlyIf::Ro) => !writable,
            Some(OnlyIf::Rw) => writable,
        }
    }
}

/// The sections that platforms treat in a special way.
#[derive(Clone, Copy, Debug, PartialEq, Eq, Structural)]
pub struct SpecialSections {
    pub eh_frame: Option<OutputSectionId>,
    pub note_gnu_property: Option<OutputSectionId>,
    pub riscv_attributes: Option<OutputSectionId>,
}

impl SectionRuleOutcome {
    /// What is done with sections that a linker script sends to an output section.
    pub fn section_rule_from_id(
        section_id: OutputSectionId,
        output_info: RuleOutputInfo,
        special: SpecialSections,
    ) -> (outcome: SectionRuleOutcome)
        ensures
            outcome == (if special.eh_frame == Some(section_id) {
                SectionRuleOutcome::EhFrame
            } else if special.note_gnu_property == Some(section_id) {
                SectionRuleOutcome::NoteGnuProperty
            } else if special.riscv_attributes == Some(section_id) {
                SectionRuleOutcome::RiscVAttribute
            } else {
                SectionRuleOutcome::Section(output_info)
            }),
    {
        if is_section(special.eh_frame, section_id) {
            SectionRuleOutcome::EhFrame
        } else if is_section(special.note_gnu_property, section_id) {
            SectionRuleOutcome::NoteGnuProperty
        } else if is_section(special.riscv_attributes, section_id) {
            SectionRuleOutcome::RiscVAttribute
        } else {
            SectionRuleOutcome::Section(output_info)
        }
    }
}

fn is_section(special: Option<OutputSectionId>, section_id: OutputSectionId) -> (is: bool)
    ensures
        is == (special == Some(section_id)),
{
    match special {
        Some(id) => id.0 == section_id.0,
        None => false,
    }
}

/// Whether equal parts of a section are stored once. Sections that have relocations are kept apart.
pub fn should_merge_sections(
    merge_sections: bool,
    is_merge_section: bool,
    has_relocations: bool,
) -> (merge: bool)
    ensures
        merge == (merge_sections && is_merge_section && !has_relocations),
{
    merge_sections && is_merge_section && !has_relocations
}

/// An assignment to the location counter of a linker script.
#[derive(Clone, Copy, Debug)]
pub enum LocationCounter<'data> {
    Absolute(Expression<'data>, SymbolLoc),
    Relative(Expression<'data>, SymbolLoc, OutputSectionId),
}

impl<'data> LocationCounter<'data> {
    /// What is assigned.
    pub fn get_expression(&self) -> (expression: Expression<'data>)
        ensures
            expression == (match *self {
                LocationCounter::Absolute(expression, _) => expression,
                LocationCounter::Relative(expression, _, _) => expression,
            }),
    {
        match self {
            LocationCounter::Absolute(expression, _) => *expression,
            LocationCounter::Relative(expression, _, _) => *expression,
        }
    }
}

} // verus!
