//! A single `Allow:` or `Disallow:` directive bound to a path prefix.

use vstd::prelude::*;
use crate::text::{STAR, spec_starts_with, starts_with};

verus! {

/// The model of a rule: a path prefix and whether it allows or disallows.
#[verifier::ext_equal]
pub ghost struct SpecRule {
    pub path: Seq<u8>,
    pub allow: bool,
}

/// The rule a directive line constructs: an empty `Disallow` path normalizes
/// to an allow-everything rule.
pub open spec fn spec_rule_new(path: Seq<u8>, allow: bool) -> SpecRule {
    if path.len() == 0 && !allow {
        SpecRule { path, allow: true }
    } else {
        SpecRule { path, allow }
    }
}

/// A rule applies to a path when its own path is the literal `*` or is a
/// byte-for-byte prefix of the path.
pub open spec fn spec_rule_applies(r: SpecRule, path: Seq<u8>) -> bool {
    r.path == seq![STAR] || spec_starts_with(path, r.path)
}

/// A single `Allow:` (allowance true) or `Disallow:` (allowance false)
/// followed by a path.
#[derive(Debug, Clone, PartialEq, Eq)]
pub struct RuleLine {
    pub(crate) path: Vec<u8>,
    pub(crate) allowance: bool,
}

impl View for RuleLine {
    type V = SpecRule;

    open(crate) spec fn view(&self) -> SpecRule {
        SpecRule { path: self.path@, allow: self.allowance }
    }
}

impl RuleLine {
    /// Builds a rule; an empty `Disallow` value means allow everything.
    pub fn new(path: Vec<u8>, allowance: bool) -> (r: RuleLine)
        ensures
            r@ == spec_rule_new(path@, allowance),
    {
        let allow = if path.len() == 0 && !allowance {
            true
        } else {
            allowance
        };
        RuleLine { path, allowance: allow }
    }

    /// Does this rule speak about `filename`?
    pub fn applies_to(&self, filename: &[u8]) -> (r: bool)
        ensures
            r == spec_rule_applies(self@, filename@),
    {
        let is_star = self.path.len() == 1 && self.path[0] == STAR;
        proof {
            if self.path@.len() == 1 && self.path@[0] == STAR {
                assert(self.path@ =~= seq![STAR]);
            } else {
                assert(seq![STAR].len() == 1);
                assert(seq![STAR][0] == STAR);
            }
        }
        if is_star {
            true
        } else {
            starts_with(filename, self.path.as_slice())
        }
    }
}

} // verus!
