//! Hooks a caller can plug into the conversion.
use vstd::prelude::*;
use crate::json::{Json, JsonV};
use crate::options::{Config, ResolvedOptions};
use crate::pattern::{default_pattern_properties_handler, default_pattern_spec};

verus! {

/// Hooks run during conversion.
///
/// `before_transform` runs on each node before keyword processing and its
/// result is the node that is processed; `after_transform` runs on each node
/// after keyword processing and its result is the converted node;
/// `pattern_properties_handler` runs on a node whose `x-patternProperties`
/// became `patternProperties` and its result replaces the node.
///
/// Each hook is a function of its arguments: the spec functions name what it
/// returns, and the conversion's contracts are stated over them.
pub trait Hooks {
    /// What `before_transform` returns for a node under the given settings.
    spec fn before_spec(&self, node: JsonV, config: Config) -> JsonV;

    /// What `after_transform` returns for a node under the given settings.
    spec fn after_spec(&self, node: JsonV, config: Config) -> JsonV;

    /// What `pattern_properties_handler` returns for a node.
    spec fn pattern_spec(&self, node: JsonV) -> JsonV;

    /// Which hooks a caller supplied, in the order `patternProperties`
    /// handler, before hook, after hook. The settings' debug text shows it.
    fn supplied(&self) -> (bool, bool, bool);

    /// Runs on each node before keyword processing.
    fn before_transform(&self, node: Json, options: &ResolvedOptions) -> (r: Json)
        ensures
            r@ == self.before_spec(node@, options@),
    ;

    /// Runs on each node after keyword processing.
    fn after_transform(&self, node: Json, options: &ResolvedOptions) -> (r: Json)
        ensures
            r@ == self.after_spec(node@, options@),
    ;

    /// Runs on a node whose `x-patternProperties` became `patternProperties`.
    fn pattern_properties_handler(&self, node: Json) -> (r: Json)
        ensures
            r@ == self.pattern_spec(node@),
    ;
}

/// No hooks: nodes pass through the before and after steps unchanged, and
/// `patternProperties` goes to the default handler.
pub struct NoHooks;

impl Hooks for NoHooks {
    open spec fn before_spec(&self, node: JsonV, config: Config) -> JsonV {
        node
    }

    open spec fn after_spec(&self, node: JsonV, config: Config) -> JsonV {
        node
    }

    open spec fn pattern_spec(&self, node: JsonV) -> JsonV {
        default_pattern_spec(node)
    }

    fn supplied(&self) -> (bool, bool, bool) {
        (false, false, false)
    }

    fn before_transform(&self, node: Json, options: &ResolvedOptions) -> (r: Json) {
        node
    }

    fn after_transform(&self, node: Json, options: &ResolvedOptions) -> (r: Json) {
        node
    }

    fn pattern_properties_handler(&self, node: Json) -> (r: Json) {
        default_pattern_properties_handler(node)
    }
}

} // verus!
