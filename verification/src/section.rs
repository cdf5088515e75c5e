//! One section of an EditorConfig file.

use vstd::prelude::*;

use crate::glob::globtype::{spec_glob_matches, Glob};
use crate::glob::matcher::MatcherS;
use crate::glob::parser::main::spec_parse;
use crate::properties::{spec_extend, PairsV, Properties};
use crate::string::{spec_into_lowercase, SharedString};

verus! {

/// One `[pattern]`-headed section: the compiled pattern and the properties
/// declared under it.
pub struct Section {
    pattern: Glob,
    props: Properties,
}

impl Section {
    /// The section's compiled pattern.
    pub closed spec fn spec_pattern(&self) -> Seq<MatcherS> {
        self.pattern@
    }

    /// The section's properties.
    pub closed spec fn spec_props(&self) -> PairsV {
        self.props@
    }

    /// Well-formedness of the property map.
    pub closed spec fn wf(&self) -> bool {
        self.props.wf()
    }

    /// Constructs a new section that applies to files matching the
    /// specified pattern. Pattern compilation is total, so no error can
    /// be retained.
    pub fn new(pattern: &str) -> (r: Section)
        ensures
            r.wf(),
            r.spec_pattern() == spec_parse(pattern@),
            r.spec_props() == Seq::<(Seq<char>, Seq<char>)>::empty(),
    {
        Section { pattern: Glob::new(pattern), props: Properties::new() }
    }

    /// Returns the section unchanged: patterns always compile, so there
    /// is never an error to report.
    pub fn or_err(self) -> (r: Result<Section, crate::error::ParseError>)
        ensures
            r is Ok && r->Ok_0 == self,
    {
        Ok(self)
    }

    /// Returns `true` if and only if this section applies to a file at
    /// the specified path.
    pub fn applies_to(&self, path: &str) -> (r: bool)
        ensures
            r == spec_glob_matches(self.spec_pattern(), path@),
    {
        self.pattern.matches(path)
    }

    /// A reference to the compiled pattern.
    pub fn pattern(&self) -> (r: &Glob)
        ensures
            r@ == self.spec_pattern(),
    {
        &self.pattern
    }

    /// A shared reference to the internal property map.
    pub fn props(&self) -> (r: &Properties)
        ensures
            r@ == self.spec_props(),
            self.wf() ==> r.wf(),
    {
        &self.props
    }

    /// Extracts the property map from the section.
    pub fn into_props(self) -> (r: Properties)
        ensures
            r@ == self.spec_props(),
            self.wf() ==> r.wf(),
    {
        self.props
    }

    /// Adds a property with the specified key, lowercasing the key.
    pub fn insert(&mut self, key: &str, val: SharedString)
        requires
            old(self).wf(),
        ensures
            final(self).wf(),
            final(self).spec_pattern() == old(self).spec_pattern(),
            final(self).spec_props() == crate::properties::spec_set_pair(
                old(self).spec_props(),
                spec_into_lowercase(key@),
                val@,
            ),
    {
        let lowered = crate::string::into_lowercase(key);
        self.props.insert_raw_for_key(lowered.as_str(), val);
    }

    /// Adds this section's properties to a map when the section applies
    /// to the path; never fails.
    pub fn apply_to(&self, props: &mut Properties, path: &str) -> (r: Result<
        (),
        crate::error::Error,
    >)
        requires
            old(props).wf(),
        ensures
            final(props).wf(),
            r is Ok,
            spec_glob_matches(self.spec_pattern(), path@) ==> final(props)@ == spec_extend(
                old(props)@,
                self.spec_props(),
            ),
            !spec_glob_matches(self.spec_pattern(), path@) ==> final(props)@ == old(props)@,
    {
        if self.applies_to(path) {
            let items = self.props.iter();
            props.extend(items);
        }
        Ok(())
    }
}

} // verus!
