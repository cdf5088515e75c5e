//! Fallback values between the indent properties.

use vstd::prelude::*;

use crate::chars::spec_eq_ignore_ascii_case;
use crate::properties::{spec_find_key, spec_set_pair, PairsV, Properties};
use crate::property::{IndentSize, IndentStyle, TabWidth};
use crate::string::SharedString;
use crate::traits::PropertyValue;

verus! {

/// What a tentative insert leaves behind: the pair appended when the key
/// is absent, the value filled in when it was empty, nothing otherwise.
pub open spec fn spec_try_pair(ps: PairsV, key: Seq<char>, val: Seq<char>) -> PairsV {
    match spec_find_key(ps, key, 0) {
        Some(i) => if ps[i].1.len() == 0 {
            ps.update(i, (ps[i].0, val))
        } else {
            ps
        },
        None => ps.push((key, val)),
    }
}

/// Whether a stored value is set and parses as the given indent size.
pub open spec fn spec_parses_as_indent_size(v: Seq<char>, want: IndentSize) -> bool {
    !(v.len() == 0 || spec_eq_ignore_ascii_case(v, "unset"@)) && IndentSize::spec_parse_val(v)
        == Some(want)
}

/// Whether a stored value is set and parses as the given indent style.
pub open spec fn spec_parses_as_indent_style(v: Seq<char>, want: IndentStyle) -> bool {
    !(v.len() == 0 || spec_eq_ignore_ascii_case(v, "unset"@)) && IndentStyle::spec_parse_val(v)
        == Some(want)
}

/// What adding the fallbacks yields: `indent_size` of `tab` takes the
/// stored tab width (or the word `tab`); an explicit indent size offers
/// itself as the tab width; a tab width alone offers itself as the indent
/// size; and, outside the legacy rules, an indent style of tabs supplies
/// an indent size of `tab`.
pub open spec fn spec_add_fallbacks(ps: PairsV, legacy: bool) -> PairsV {
    let step1 = match spec_find_key(ps, "indent_size"@, 0) {
        Some(i) => {
            let v = ps[i].1;
            if spec_parses_as_indent_size(v, IndentSize::UseTabWidth) {
                let tw = match spec_find_key(ps, "tab_width"@, 0) {
                    Some(j) => ps[j].1,
                    None => "tab"@,
                };
                spec_set_pair(ps, "indent_size"@, tw)
            } else {
                spec_try_pair(ps, "tab_width"@, v)
            }
        },
        None => match spec_find_key(ps, "tab_width"@, 0) {
            Some(j) => if ps[j].1 != "unset"@ {
                spec_try_pair(ps, "indent_size"@, ps[j].1)
            } else {
                ps
            },
            None => ps,
        },
    };
    if !legacy {
        let tabs = match spec_find_key(step1, "indent_style"@, 0) {
            Some(k) => spec_parses_as_indent_style(step1[k].1, IndentStyle::Tabs),
            None => false,
        };
        if tabs {
            spec_try_pair(step1, "indent_size"@, "tab"@)
        } else {
            step1
        }
    } else {
        step1
    }
}

/// Adds fallback values for the indent properties, following the current
/// standard unless the legacy rules are asked for.
pub fn add_fallbacks(props: &mut Properties, legacy: bool)
    requires
        old(props).wf(),
    ensures
        final(props).wf(),
        final(props)@ == spec_add_fallbacks(old(props)@, legacy),
{
    let size_val: Option<SharedString> = match props.get_raw::<IndentSize>() {
        Some(v) => Some(v.duplicate()),
        None => None,
    };
    match size_val {
        Some(value) => {
            let is_use_tab_width = match value.parse::<IndentSize>() {
                Ok(IndentSize::UseTabWidth) => true,
                _ => false,
            };
            if is_use_tab_width {
                let tw: SharedString = match props.get_raw::<TabWidth>() {
                    Some(v) => v.duplicate(),
                    None => SharedString::new_static("tab"),
                };
                props.insert_raw::<IndentSize>(tw);
            } else {
                let _ = props.try_insert_raw::<TabWidth>(value);
            }
        },
        None => {
            let tab_val: Option<SharedString> = match props.get_raw::<TabWidth>() {
                Some(v) => Some(v.duplicate()),
                None => None,
            };
            match tab_val {
                Some(value) => {
                    if !crate::chars::str_eq(value.as_str(), "unset") {
                        let _ = props.try_insert_raw::<IndentSize>(value);
                    }
                },
                None => {},
            }
        },
    }
    if !legacy {
        let tabs = match props.get::<IndentStyle>() {
            Ok(IndentStyle::Tabs) => true,
            _ => false,
        };
        if tabs {
            let _ = props.try_insert(IndentSize::UseTabWidth);
        }
    }
}

} // verus!
