//! The resource locator: finds recording links on a course page and the
//! embedded configuration on a recording page.
//!
//! Both lookups address fixed structural positions in the portal's markup;
//! the positions are load-bearing assumptions about the page structure, so
//! each lookup is a named, independently testable step with a typed
//! "not found" outcome.

use vstd::prelude::*;
use crate::markup::{
    css_container_attrs, css_first_text, select_container_attrs, select_first_text,
};
use crate::recording::{
    ConfigError, RecordingConfig, config_models, page_config_text, parse_page_config,
};
use crate::jsontree::json_parse;
use crate::text::{trim_spec, trim_str};

verus! {

/// The course page's recording table, by its fixed structural position.
pub open spec fn links_container_selector() -> Seq<char> {
    "html > body > div:nth-of-type(2) > div:nth-of-type(4) > div > div > div:nth-of-type(2) > div > section > div:nth-of-type(2) > div:nth-of-type(2) > table > tbody"@
}

/// The anchors inside the recording table's rows.
pub open spec fn links_anchor_selector() -> Seq<char> {
    "tr > td > a"@
}

/// The recording page's config script, by its fixed structural position.
pub open spec fn config_script_selector() -> Seq<char> {
    "html > body > div:nth-of-type(2) > div:nth-of-type(4) > div > div > div:nth-of-type(2) > div > section > div:nth-of-type(2) > script"@
}

/// Why a course page yielded no recording links.
#[derive(Debug)]
pub enum LinksError {
    /// The page holds no recording table at the expected position.
    TableMissing,
}

/// The present values of a list, in order.
pub open spec fn present_values(l: Seq<Option<Seq<char>>>) -> Seq<Seq<char>>
    decreases l.len(),
{
    if l.len() == 0 {
        Seq::empty()
    } else {
        let rest = present_values(l.drop_last());
        match l.last() {
            Some(v) => rest.push(v),
            None => rest,
        }
    }
}

/// The recording links a course page lists: the `href` of every anchor in
/// the recording table, in order; an error when the table is absent.
pub fn recording_links(page: &str) -> (r: Result<Vec<String>, LinksError>)
    ensures
        match r {
            Ok(links) => {
                &&& css_container_attrs(
                    page@,
                    links_container_selector(),
                    links_anchor_selector(),
                    "href"@,
                ) matches Some(found)
                &&& links.deep_view() == present_values(found)
            },
            Err(e) => {
                &&& e is TableMissing
                &&& css_container_attrs(
                    page@,
                    links_container_selector(),
                    links_anchor_selector(),
                    "href"@,
                ) is None
            },
        },
{
    let found = select_container_attrs(
        page,
        "html > body > div:nth-of-type(2) > div:nth-of-type(4) > div > div > div:nth-of-type(2) > div > section > div:nth-of-type(2) > div:nth-of-type(2) > table > tbody",
        "tr > td > a",
        "href",
    );
    match found {
        None => Err(LinksError::TableMissing),
        Some(list) => {
            let mut links: Vec<String> = Vec::new();
            let mut i: usize = 0;
            while i < list.len()
                invariant
                    0 <= i <= list@.len(),
                    links.deep_view() == present_values(list.deep_view().subrange(0, i as int)),
                decreases list@.len() - i,
            {
                let ghost prefix = list.deep_view().subrange(0, i as int);
                let ghost next = list.deep_view().subrange(0, i as int + 1);
                let ghost before = links.deep_view();
                proof {
                    assert(next.drop_last() =~= prefix);
                    assert(next.last() == list.deep_view()[i as int]);
                }
                match &list[i] {
                    Some(href) => {
                        links.push(href.clone());
                        proof {
                            assert forall|m: int| 0 <= m < before.len() implies links.deep_view()[m]
                                == before[m] by {
                                assert(links@[m] == links@.drop_last()[m]);
                            }
                            assert(links.deep_view() =~~= before.push(href@));
                            assert(list.deep_view()[i as int] matches Some(v) && v
                                == href@) by {
                                assert(list.deep_view()[i as int] == list@[i as int].deep_view());
                            }
                            assert(links.deep_view() =~~= present_values(next));
                        }
                    },
                    None => {
                        proof {
                            assert(list.deep_view()[i as int] is None) by {
                                assert(list.deep_view()[i as int] == list@[i as int].deep_view());
                            }
                            assert(links.deep_view() =~~= present_values(next));
                        }
                    },
                }
                i += 1;
            }
            proof {
                assert(list.deep_view().subrange(0, list@.len() as int) =~= list.deep_view());
            }
            Ok(links)
        },
    }
}

/// The configuration a recording page embeds: the config script at its fixed
/// position, trimmed, unwrapped and parsed.  The error names the stage that
/// failed — script absent, assignment absent, or JSON invalid.
pub fn page_config(page: &str) -> (r: Result<RecordingConfig, ConfigError>)
    ensures
        match r {
            Ok(cfg) => {
                &&& css_first_text(page@, config_script_selector()) matches Some(raw)
                &&& page_config_text(trim_spec(raw)) matches Some(t)
                &&& json_parse(t) matches Some(m)
                &&& config_models(cfg, m)
            },
            Err(e) => match e {
                ConfigError::ScriptMissing => css_first_text(
                    page@,
                    config_script_selector(),
                ) is None,
                ConfigError::SetterMissing => {
                    &&& css_first_text(page@, config_script_selector()) matches Some(raw)
                    &&& page_config_text(trim_spec(raw)) is None
                },
                ConfigError::JsonInvalid => {
                    &&& css_first_text(page@, config_script_selector()) matches Some(raw)
                    &&& page_config_text(trim_spec(raw)) matches Some(t)
                    &&& json_parse(t) is None
                },
            },
        },
{
    let raw = select_first_text(
        page,
        "html > body > div:nth-of-type(2) > div:nth-of-type(4) > div > div > div:nth-of-type(2) > div > section > div:nth-of-type(2) > script",
    );
    match raw {
        None => Err(ConfigError::ScriptMissing),
        Some(text) => {
            let trimmed = trim_str(text.as_str());
            parse_page_config(trimmed.as_str())
        },
    }
}

} // verus!
