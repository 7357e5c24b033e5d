//! The two collection switches the probe cycle consults, and how their
//! environment values are read.

use crate::text;
use vstd::prelude::*;

verus! {

/// What the exporter was configured to collect. The loader that reads the
/// process environment lives outside the library and hands the flags in as
/// plain booleans.
pub struct Config {
    pub port: u16,
    pub collect_image_metrics: bool,
    pub collect_volume_metrics: bool,
}

/// Whether an environment value switches a flag on: exactly `1`, or `true`
/// in any ASCII casing.
pub open spec fn truthy(s: Seq<char>) -> bool {
    s =~= seq!['1'] || text::eq_fold(s, seq!['t', 'r', 'u', 'e'])
}

impl Config {
    /// Reads an optional environment value as a boolean, falling back to
    /// `default` where the variable is absent.
    pub fn is_truthy(var: Option<&str>, default: bool) -> (r: bool)
        ensures
            r == match var {
                Some(s) => truthy(s@),
                None => default,
            },
    {
        match var {
            Some(s) => {
                proof {
                    reveal_strlit("1");
                    reveal_strlit("true");
                    assert("1"@ =~= seq!['1']);
                    assert("true"@ =~= seq!['t', 'r', 'u', 'e']);
                }
                let one = s.unicode_len() == 1 && s.get_char(0) == '1';
                proof {
                    if one {
                        assert(s@ =~= seq!['1']);
                    }
                }
                one || text::eq_ignore_ascii_case(s, "true")
            },
            None => default,
        }
    }

    /// Whether the probe must take the combined usage snapshot rather than
    /// the faster containers-only listing.
    pub fn combined_snapshot(&self) -> (r: bool)
        ensures
            r == (self.collect_image_metrics || self.collect_volume_metrics),
    {
        self.collect_image_metrics || self.collect_volume_metrics
    }
}

} // verus!
