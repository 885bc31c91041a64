//! The control stanza of a binary package.

use vstd::prelude::*;
use vstd::slice::slice_subrange;

use crate::deb::DebianHandler;
use crate::error::{invalid, outcome, Failure, Result};
use crate::number::{decimal_u64, parse_u64};
use crate::ordered::{copy_texts, put, TextMap};
use crate::stanza::{continued, field_of, fields, is_indented_line};
use crate::text::{chars_of, find_char, is_empty_text, is_lowered, lines_of, split_at_char, text_of, trim_of, trim_start_of, vec_of};
use crate::text::{find_is_first, lines, lowers_to, pieces, split, trim, trim_start};

verus! {

/// The fields of a control stanza.
#[derive(Debug, PartialEq, Eq)]
pub struct DebControl {
    pub package: String,
    pub version: String,
    pub architecture: String,
    pub maintainer: Option<String>,
    pub installed_size: Option<u64>,
    pub depends: Option<Vec<String>>,
    pub pre_depends: Option<Vec<String>>,
    pub recommends: Option<Vec<String>>,
    pub suggests: Option<Vec<String>>,
    pub conflicts: Option<Vec<String>>,
    pub provides: Option<Vec<String>>,
    pub replaces: Option<Vec<String>>,
    pub section: Option<String>,
    pub priority: Option<String>,
    pub homepage: Option<String>,
    pub description: Option<String>,
    pub source: Option<String>,
    pub extra: TextMap<String>,
}

// ---------------------------------------------------------------------------
// Model
// ---------------------------------------------------------------------------

/// What a `DebControl` holds.
#[verifier::ext_equal]
pub struct ControlModel {
    pub package: Seq<char>,
    pub version: Seq<char>,
    pub architecture: Seq<char>,
    pub maintainer: Option<Seq<char>>,
    pub installed_size: Option<u64>,
    pub depends: Option<Seq<Seq<char>>>,
    pub pre_depends: Option<Seq<Seq<char>>>,
    pub recommends: Option<Seq<Seq<char>>>,
    pub suggests: Option<Seq<Seq<char>>>,
    pub conflicts: Option<Seq<Seq<char>>>,
    pub provides: Option<Seq<Seq<char>>>,
    pub replaces: Option<Seq<Seq<char>>>,
    pub section: Option<Seq<char>>,
    pub priority: Option<Seq<char>>,
    pub homepage: Option<Seq<char>>,
    pub description: Option<Seq<char>>,
    pub source: Option<Seq<char>>,
    pub extra: Seq<(Seq<char>, Seq<char>)>,
}

impl DeepView for DebControl {
    type V = ControlModel;

    open spec fn deep_view(&self) -> ControlModel {
        ControlModel {
            package: self.package@,
            version: self.version@,
            architecture: self.architecture@,
            maintainer: self.maintainer.deep_view(),
            installed_size: self.installed_size,
            depends: self.depends.deep_view(),
            pre_depends: self.pre_depends.deep_view(),
            recommends: self.recommends.deep_view(),
            suggests: self.suggests.deep_view(),
            conflicts: self.conflicts.deep_view(),
            provides: self.provides.deep_view(),
            replaces: self.replaces.deep_view(),
            section: self.section.deep_view(),
            priority: self.priority.deep_view(),
            homepage: self.homepage.deep_view(),
            description: self.description.deep_view(),
            source: self.source.deep_view(),
            extra: self.extra.deep_view(),
        }
    }
}

/// The control stanza without any field.
pub open spec fn blank_control() -> ControlModel {
    ControlModel {
        package: seq![],
        version: seq![],
        architecture: seq![],
        maintainer: None,
        installed_size: None,
        depends: None,
        pre_depends: None,
        recommends: None,
        suggests: None,
        conflicts: None,
        provides: None,
        replaces: None,
        section: None,
        priority: None,
        homepage: None,
        description: None,
        source: None,
        extra: seq![],
    }
}

/// The items of a list with commas between them, trimmed; empty items are dropped.
pub open spec fn dependency_list(value: Seq<char>) -> Seq<Seq<char>> {
    trimmed_items(split(value, ','))
}

/// The items that hold more than white space, trimmed.
pub open spec fn trimmed_items(items: Seq<Seq<char>>) -> Seq<Seq<char>>
    decreases items.len(),
{
    if items.len() == 0 {
        seq![]
    } else {
        let before = trimmed_items(items.drop_last());
        let item = trim(items.last());
        if item.len() == 0 {
            before
        } else {
            before.push(item)
        }
    }
}

/// The control stanza with one field set. Field names are compared without
/// regard to case; a field of an unknown name is kept under the name as written.
pub open spec fn with_field(c: ControlModel, key: Seq<char>, value: Seq<char>) -> ControlModel {
    if lowers_to(key, "package"@) {
        ControlModel { package: value, ..c }
    } else if lowers_to(key, "version"@) {
        ControlModel { version: value, ..c }
    } else if lowers_to(key, "architecture"@) {
        ControlModel { architecture: value, ..c }
    } else if lowers_to(key, "maintainer"@) {
        ControlModel { maintainer: Some(value), ..c }
    } else if lowers_to(key, "installed-size"@) {
        ControlModel { installed_size: decimal_u64(value), ..c }
    } else if lowers_to(key, "depends"@) {
        ControlModel { depends: Some(dependency_list(value)), ..c }
    } else if lowers_to(key, "pre-depends"@) {
        ControlModel { pre_depends: Some(dependency_list(value)), ..c }
    } else if lowers_to(key, "recommends"@) {
        ControlModel { recommends: Some(dependency_list(value)), ..c }
    } else if lowers_to(key, "suggests"@) {
        ControlModel { suggests: Some(dependency_list(value)), ..c }
    } else if lowers_to(key, "conflicts"@) {
        ControlModel { conflicts: Some(dependency_list(value)), ..c }
    } else if lowers_to(key, "provides"@) {
        ControlModel { provides: Some(dependency_list(value)), ..c }
    } else if lowers_to(key, "replaces"@) {
        ControlModel { replaces: Some(dependency_list(value)), ..c }
    } else if lowers_to(key, "section"@) {
        ControlModel { section: Some(value), ..c }
    } else if lowers_to(key, "priority"@) {
        ControlModel { priority: Some(value), ..c }
    } else if lowers_to(key, "homepage"@) {
        ControlModel { homepage: Some(value), ..c }
    } else if lowers_to(key, "description"@) {
        ControlModel { description: Some(value), ..c }
    } else if lowers_to(key, "source"@) {
        ControlModel { source: Some(value), ..c }
    } else {
        ControlModel { extra: put(c.extra, key, value), ..c }
    }
}

/// The control stanza with the given fields, set one after the other.
pub open spec fn control_with(fs: Seq<(Seq<char>, Seq<char>)>) -> ControlModel
    decreases fs.len(),
{
    if fs.len() == 0 {
        blank_control()
    } else {
        with_field(control_with(fs.drop_last()), fs.last().0, fs.last().1)
    }
}

/// What a control file says. Package, version and architecture must be there.
pub open spec fn control_of(content: Seq<char>) -> std::result::Result<ControlModel, Failure> {
    let c = control_with(fields(lines(content)));
    if c.package.len() == 0 {
        Err(Failure::Validation("Control file missing Package field"@))
    } else if c.version.len() == 0 {
        Err(Failure::Validation("Control file missing Version field"@))
    } else if c.architecture.len() == 0 {
        Err(Failure::Validation("Control file missing Architecture field"@))
    } else {
        Ok(c)
    }
}

// ---------------------------------------------------------------------------
// Parsing
// ---------------------------------------------------------------------------

impl Default for DebControl {
    fn default() -> (r: Self)
        ensures
            r.deep_view() == blank_control(),
    {
        DebControl {
            package: String::new(),
            version: String::new(),
            architecture: String::new(),
            maintainer: None,
            installed_size: None,
            depends: None,
            pre_depends: None,
            recommends: None,
            suggests: None,
            conflicts: None,
            provides: None,
            replaces: None,
            section: None,
            priority: None,
            homepage: None,
            description: None,
            source: None,
            extra: TextMap::new(),
        }
    }
}

/// Copies an optional text.
pub(crate) fn copy_text(value: &Option<String>) -> (r: Option<String>)
    ensures
        r.deep_view() == value.deep_view(),
{
    match value {
        Some(text) => Some(text.clone()),
        None => None,
    }
}

/// Copies an optional list of texts.
fn copy_list(values: &Option<Vec<String>>) -> (r: Option<Vec<String>>)
    ensures
        r.deep_view() == values.deep_view(),
{
    match values {
        Some(list) => Some(copy_texts(list.as_slice())),
        None => None,
    }
}

impl Clone for DebControl {
    fn clone(&self) -> (r: Self)
        ensures
            r.deep_view() == self.deep_view(),
    {
        DebControl {
            package: self.package.clone(),
            version: self.version.clone(),
            architecture: self.architecture.clone(),
            maintainer: copy_text(&self.maintainer),
            installed_size: self.installed_size,
            depends: copy_list(&self.depends),
            pre_depends: copy_list(&self.pre_depends),
            recommends: copy_list(&self.recommends),
            suggests: copy_list(&self.suggests),
            conflicts: copy_list(&self.conflicts),
            provides: copy_list(&self.provides),
            replaces: copy_list(&self.replaces),
            section: copy_text(&self.section),
            priority: copy_text(&self.priority),
            homepage: copy_text(&self.homepage),
            description: copy_text(&self.description),
            source: copy_text(&self.source),
            extra: self.extra.clone(),
        }
    }
}

impl DebianHandler {
    /// Splits a list at its commas, trims its items and drops the empty ones.
    pub fn parse_dependency_list(value: &[char]) -> (r: Vec<String>)
        ensures
            r.deep_view() == dependency_list(value@),
    {
        let items = split_at_char(value, ',');
        let mut r: Vec<String> = Vec::new();
        let ghost all = pieces(items@);
        assert(r.deep_view() =~= trimmed_items(all.take(0)));
        for i in 0..items.len()
            invariant
                all == pieces(items@),
                r.deep_view() == trimmed_items(all.take(i as int)),
        {
            let item = trim_of(items[i]);
            let ghost before = r.deep_view();
            proof {
                assert(all.take(i + 1).drop_last() =~= all.take(i as int));
                assert(all.take(i + 1).last() == items[i as int]@);
            }
            if item.len() > 0 {
                r.push(text_of(item));
                assert(r.deep_view() =~= before.push(item@));
            }
        }
        assert(all.take(all.len() as int) =~= all);
        r
    }

    /// Sets one field of a control stanza.
    pub fn set_control_field(control: &mut DebControl, key: &[char], value: &[char])
        ensures
            final(control).deep_view() == with_field(old(control).deep_view(), key@, value@),
    {
        if is_lowered(key, "package") {
            control.package = text_of(value);
        } else if is_lowered(key, "version") {
            control.version = text_of(value);
        } else if is_lowered(key, "architecture") {
            control.architecture = text_of(value);
        } else if is_lowered(key, "maintainer") {
            control.maintainer = Some(text_of(value));
        } else if is_lowered(key, "installed-size") {
            control.installed_size = parse_u64(value);
        } else if is_lowered(key, "depends") {
            control.depends = Some(Self::parse_dependency_list(value));
        } else if is_lowered(key, "pre-depends") {
            control.pre_depends = Some(Self::parse_dependency_list(value));
        } else if is_lowered(key, "recommends") {
            control.recommends = Some(Self::parse_dependency_list(value));
        } else if is_lowered(key, "suggests") {
            control.suggests = Some(Self::parse_dependency_list(value));
        } else if is_lowered(key, "conflicts") {
            control.conflicts = Some(Self::parse_dependency_list(value));
        } else if is_lowered(key, "provides") {
            control.provides = Some(Self::parse_dependency_list(value));
        } else if is_lowered(key, "replaces") {
            control.replaces = Some(Self::parse_dependency_list(value));
        } else if is_lowered(key, "section") {
            control.section = Some(text_of(value));
        } else if is_lowered(key, "priority") {
            control.priority = Some(text_of(value));
        } else if is_lowered(key, "homepage") {
            control.homepage = Some(text_of(value));
        } else if is_lowered(key, "description") {
            control.description = Some(text_of(value));
        } else if is_lowered(key, "source") {
            control.source = Some(text_of(value));
        } else {
            control.extra.insert(text_of(key), text_of(value));
        }
    }

    /// Parses the fields of a control file; the mandatory ones are not asked for.
    fn parse_control_fields(content: &[char]) -> (control: DebControl)
        ensures
            control.deep_view() == control_with(fields(lines(content@))),
    {
        let ls = lines_of(content);
        let ghost all = pieces(ls@);
        let mut control = DebControl::default();
        let mut key: Option<&[char]> = None;
        let mut value: Vec<char> = Vec::new();
        for i in 0..ls.len()
            invariant
                all == pieces(ls@),
                key is None ==> fields(all.take(i as int)).len() == 0 && control.deep_view()
                    == blank_control(),
                key matches Some(k) ==> {
                    let fs = fields(all.take(i as int));
                    &&& fs.len() > 0
                    &&& fs.last() == (k@, value@)
                    &&& control.deep_view() == control_with(fs.drop_last())
                },
        {
            let line = ls[i];
            let ghost fs = fields(all.take(i as int));
            proof {
                assert(all.take(i + 1).drop_last() =~= all.take(i as int));
                assert(all.take(i + 1).last() == line@);
            }
            if is_indented_line(line) {
                if key.is_some() {
                    let rest = trim_start_of(line);
                    let ghost before = value@;
                    value.push('\n');
                    value.extend_from_slice(rest);
                    assert(value@ =~= before + seq!['\n'] + trim_start(line@));
                    assert(continued(fs, line@).drop_last() =~= fs.drop_last());
                }
            } else {
                proof {
                    find_is_first(line@, ':');
                }
                let colon = find_char(line, ':');
                if colon < line.len() {
                    if let Some(k) = key {
                        Self::set_control_field(&mut control, k, value.as_slice());
                    }
                    key = Some(slice_subrange(line, 0, colon));
                    let rest = trim_of(slice_subrange(line, colon + 1, line.len()));
                    value = vec_of(rest);
                    proof {
                        assert(line@.subrange(0, colon as int) =~= line@.take(colon as int));
                        assert(line@.subrange(colon + 1, line@.len() as int) =~= line@.skip(
                            colon + 1,
                        ));
                        assert(fs.push(field_of(line@)).drop_last() =~= fs);
                        assert(value@ =~= rest@);
                    }
                }
            }
        }
        proof {
            assert(all.take(all.len() as int) =~= all);
        }
        if let Some(k) = key {
            Self::set_control_field(&mut control, k, value.as_slice());
        } else {
            assert(fields(all) =~= seq![]);
        }
        control
    }

    /// Parses a control file.
    pub fn parse_control(content: &str) -> (r: Result<DebControl>)
        ensures
            outcome(r) == control_of(content@),
    {
        let chars = chars_of(content);
        let control = Self::parse_control_fields(chars.as_slice());
        if is_empty_text(control.package.as_str()) {
            return Err(invalid("Control file missing Package field"));
        }
        if is_empty_text(control.version.as_str()) {
            return Err(invalid("Control file missing Version field"));
        }
        if is_empty_text(control.architecture.as_str()) {
            return Err(invalid("Control file missing Architecture field"));
        }
        Ok(control)
    }
}

} // verus!
