//! How a registry is asked layer by layer.
//!
//! Asking a single layer is left to the caller. A walk says which layer to ask next, takes
//! the layer's answer, and comes to the answer of the whole registry.

use vstd::prelude::*;

use crate::registry::layers;
use crate::registry::layers::AnyRegistry;
use crate::registry::overlay;
use crate::registry::overlay::{DownloadStep, OverlayRegistry};
use crate::registry::RegistryError;
use crate::types::IndexEntry;

verus! {

/// Whether a registry is a single layer.
pub open spec fn is_layer(registry: AnyRegistry) -> bool {
    !(registry is Overlay)
}

/// What a lookup gave, without the vector around it.
pub open spec fn lookup_view(answer: Result<Vec<IndexEntry>, RegistryError>) -> Result<
    Seq<IndexEntry>,
    RegistryError,
> {
    match answer {
        Ok(entries) => Ok(entries@),
        Err(e) => Err(e),
    }
}

/// How many layers a registry has.
pub open spec fn layer_count(registry: AnyRegistry) -> nat
    decreases registry,
{
    match registry {
        AnyRegistry::Overlay(overlay) => layer_count(overlay.top) + layer_count(overlay.bottom),
        _ => 1,
    }
}

/// How many layers some registries have.
pub open spec fn layers_in(rest: Seq<&AnyRegistry>) -> nat
    decreases rest.len(),
{
    if rest.len() == 0 {
        0
    } else {
        layers_in(rest.drop_last()) + layer_count(*rest.last())
    }
}

/// A registry laid over another has the layers of both.
proof fn lemma_layers_opened(rest: Seq<&AnyRegistry>, whole: &AnyRegistry)
    requires
        whole is Overlay,
    ensures
        layers_in(rest.push(whole)) == layers_in(
            rest.push(&whole->Overlay_0.bottom).push(&whole->Overlay_0.top),
        ),
{
    reveal_with_fuel(layers_in, 3);
    let top = whole->Overlay_0.top;
    let bottom = whole->Overlay_0.bottom;
    assert(rest.push(whole).drop_last() =~= rest);
    assert(rest.push(&bottom).push(&top).drop_last() =~= rest.push(&bottom));
    assert(rest.push(&bottom).drop_last() =~= rest);
}

/// A lookup on its way: what is still to be asked, the next last, and what was found.
pub struct LookupWalk<'a> {
    pub rest: Vec<&'a AnyRegistry>,
    pub found: Vec<IndexEntry>,
}

/// What comes next in a lookup.
pub enum LookupTurn<'a> {
    /// This layer is to be asked.
    Ask { layer: &'a AnyRegistry, walk: LookupWalk<'a> },
    /// All layers have answered, and this is what they have.
    Done(Vec<IndexEntry>),
}

/// What a lookup comes to that has found some entries and has `rest` still to ask.
pub open spec fn lookup_outcome(
    rest: Seq<&AnyRegistry>,
    found: Seq<IndexEntry>,
    answer: spec_fn(AnyRegistry) -> Result<Seq<IndexEntry>, RegistryError>,
) -> Result<Seq<IndexEntry>, RegistryError>
    decreases rest.len(),
{
    if rest.len() == 0 {
        Ok(found)
    } else {
        match layers::looked_up(*rest.last(), answer) {
            Err(e) => Err(e),
            Ok(more) => lookup_outcome(rest.drop_last(), overlay::merged(found, more), answer),
        }
    }
}

impl<'a> LookupWalk<'a> {
    /// What the lookup comes to, where each layer answers as `answer` says.
    pub open spec fn outcome(
        self,
        answer: spec_fn(AnyRegistry) -> Result<Seq<IndexEntry>, RegistryError>,
    ) -> Result<Seq<IndexEntry>, RegistryError> {
        lookup_outcome(self.rest@, self.found@, answer)
    }

    /// What the lookup comes to, once the layer that is to be asked has given `given`.
    pub open spec fn outcome_given(
        self,
        given: Result<Seq<IndexEntry>, RegistryError>,
        answer: spec_fn(AnyRegistry) -> Result<Seq<IndexEntry>, RegistryError>,
    ) -> Result<Seq<IndexEntry>, RegistryError> {
        match given {
            Err(e) => Err(e),
            Ok(more) => lookup_outcome(self.rest@, overlay::merged(self.found@, more), answer),
        }
    }

    /// Begins a lookup.
    pub fn new(registry: &'a AnyRegistry) -> (walk: LookupWalk<'a>)
        ensures
            forall|answer: spec_fn(AnyRegistry) -> Result<Seq<IndexEntry>, RegistryError>|
                #[trigger] walk.outcome(answer) == layers::looked_up(*registry, answer),
            layers_in(walk.rest@) == layer_count(*registry),
    {
        let mut rest: Vec<&'a AnyRegistry> = Vec::new();
        rest.push(registry);
        assert(rest@.drop_last() =~= Seq::empty());
        assert(layers_in(rest@.drop_last()) == 0);
        let walk = LookupWalk { rest, found: Vec::new() };
        proof {
            assert forall|answer: spec_fn(AnyRegistry) -> Result<Seq<IndexEntry>, RegistryError>|
                #[trigger] walk.outcome(answer) == layers::looked_up(*registry, answer) by {
                reveal_with_fuel(lookup_outcome, 2);
                if let Ok(entries) = layers::looked_up(*registry, answer) {
                    overlay::law_empty_top_layer_changes_nothing(entries);
                }
            }
        }
        walk
    }

    /// Finds the layer to ask next: the topmost of those that have not answered. No layer
    /// is asked twice.
    pub fn next(self) -> (turn: LookupTurn<'a>)
        ensures
            match turn {
                LookupTurn::Ask { layer, walk } => is_layer(*layer) && layers_in(self.rest@)
                    == layers_in(walk.rest@) + 1 && forall|
                    answer: spec_fn(AnyRegistry) -> Result<Seq<IndexEntry>, RegistryError>,
                | #[trigger]
                    self.outcome(answer) == walk.outcome_given(answer(*layer), answer),
                LookupTurn::Done(entries) => layers_in(self.rest@) == 0 && forall|
                    answer: spec_fn(AnyRegistry) -> Result<Seq<IndexEntry>, RegistryError>,
                | #[trigger]
                    self.outcome(answer) == Ok::<Seq<IndexEntry>, RegistryError>(entries@),
            },
    {
        let ghost before = self;
        let mut rest = self.rest;
        let found = self.found;
        let mut layer: &'a AnyRegistry = match rest.pop() {
            Some(registry) => registry,
            None => return LookupTurn::Done(found),
        };
        assert(rest@.push(layer) =~= before.rest@);
        loop
            invariant_except_break
                layers_in(rest@.push(layer)) == layers_in(before.rest@),
                forall|answer: spec_fn(AnyRegistry) -> Result<Seq<IndexEntry>, RegistryError>|
                    #[trigger] before.outcome(answer) == lookup_outcome(
                        rest@.push(layer),
                        found@,
                        answer,
                    ),
            ensures
                is_layer(*layer),
                layers_in(rest@.push(layer)) == layers_in(before.rest@),
                forall|answer: spec_fn(AnyRegistry) -> Result<Seq<IndexEntry>, RegistryError>|
                    #[trigger] before.outcome(answer) == lookup_outcome(
                        rest@.push(layer),
                        found@,
                        answer,
                    ),
            decreases *layer,
        {
            let layers = match layer {
                AnyRegistry::Overlay(layers) => layers,
                _ => break,
            };
            let ghost below = rest@;
            let ghost whole = layer;
            rest.push(&layers.bottom);
            layer = &layers.top;
            proof {
                lemma_layers_opened(below, whole);
                assert forall|
                    answer: spec_fn(AnyRegistry) -> Result<Seq<IndexEntry>, RegistryError>,
                | #[trigger]
                    before.outcome(answer) == lookup_outcome(rest@.push(layer), found@, answer) by {
                    lemma_lookup_opened(below, whole, found@, answer);
                }
            }
        }
        let walk = LookupWalk { rest, found };
        proof {
            assert(walk.rest@.push(layer).drop_last() =~= walk.rest@);
            assert forall|answer: spec_fn(AnyRegistry) -> Result<Seq<IndexEntry>, RegistryError>|
                #[trigger] before.outcome(answer) == walk.outcome_given(answer(*layer), answer) by {
                assert(layers::looked_up(*layer, answer) == answer(*layer));
            }
        }
        LookupTurn::Ask { layer, walk }
    }

    /// Goes on when the layer has answered: an error ends the lookup.
    pub fn answered(self, answer: Result<Vec<IndexEntry>, RegistryError>) -> (walk: Result<
        LookupWalk<'a>,
        RegistryError,
    >)
        ensures
            match answer {
                Err(e) => walk == Err::<LookupWalk<'a>, RegistryError>(e),
                Ok(entries) => walk matches Ok(w) && w.rest == self.rest && w.found@
                    == overlay::merged(self.found@, entries@) && forall|
                    all: spec_fn(AnyRegistry) -> Result<Seq<IndexEntry>, RegistryError>,
                | #[trigger]
                    w.outcome(all) == self.outcome_given(lookup_view(answer), all),
            },
    {
        match OverlayRegistry::<AnyRegistry, AnyRegistry>::lookup_bottom(self.found, answer) {
            Ok(found) => Ok(LookupWalk { rest: self.rest, found }),
            Err(e) => Err(e),
        }
    }
}

/// A registry laid over another is asked as the two one after the other.
proof fn lemma_lookup_opened(
    rest: Seq<&AnyRegistry>,
    whole: &AnyRegistry,
    found: Seq<IndexEntry>,
    answer: spec_fn(AnyRegistry) -> Result<Seq<IndexEntry>, RegistryError>,
)
    requires
        whole is Overlay,
    ensures
        lookup_outcome(rest.push(whole), found, answer) == lookup_outcome(
            rest.push(&whole->Overlay_0.bottom).push(&whole->Overlay_0.top),
            found,
            answer,
        ),
{
    reveal_with_fuel(lookup_outcome, 3);
    let top = whole->Overlay_0.top;
    let bottom = whole->Overlay_0.bottom;
    assert(rest.push(whole).drop_last() =~= rest);
    assert(rest.push(&bottom).push(&top).drop_last() =~= rest.push(&bottom));
    assert(rest.push(&bottom).drop_last() =~= rest);
    if let Ok(a) = layers::looked_up(top, answer) {
        if let Ok(b) = layers::looked_up(bottom, answer) {
            overlay::law_merging_is_associative(found, a, b);
        }
    }
}

/// A download on its way: what is still to be asked, the next last.
pub struct DownloadWalk<'a> {
    pub rest: Vec<&'a AnyRegistry>,
}

/// What comes next in a download.
pub enum DownloadTurn<'a> {
    /// This layer is to be asked.
    Ask { layer: &'a AnyRegistry, walk: DownloadWalk<'a> },
    /// No layer has the crate.
    NotFound,
}

/// What to do once a layer has answered.
pub enum DownloadNext<'a> {
    /// Another layer is to be asked.
    GoOn(DownloadWalk<'a>),
    /// The download is over.
    Done(Result<Vec<u8>, RegistryError>),
}

/// What a download comes to that has `rest` still to ask.
pub open spec fn download_outcome(
    rest: Seq<&AnyRegistry>,
    answer: spec_fn(AnyRegistry) -> Result<Vec<u8>, RegistryError>,
) -> Result<Vec<u8>, RegistryError>
    decreases rest.len(),
{
    if rest.len() == 0 {
        Err(RegistryError::NotFound)
    } else {
        match layers::downloaded(*rest.last(), answer) {
            Err(RegistryError::NotFound) => download_outcome(rest.drop_last(), answer),
            other => other,
        }
    }
}

impl<'a> DownloadWalk<'a> {
    /// What the download comes to, where each layer answers as `answer` says.
    pub open spec fn outcome(
        self,
        answer: spec_fn(AnyRegistry) -> Result<Vec<u8>, RegistryError>,
    ) -> Result<Vec<u8>, RegistryError> {
        download_outcome(self.rest@, answer)
    }

    /// Begins a download.
    pub fn new(registry: &'a AnyRegistry) -> (walk: DownloadWalk<'a>)
        ensures
            forall|answer: spec_fn(AnyRegistry) -> Result<Vec<u8>, RegistryError>|
                #[trigger] walk.outcome(answer) == layers::downloaded(*registry, answer),
            layers_in(walk.rest@) == layer_count(*registry),
    {
        let mut rest: Vec<&'a AnyRegistry> = Vec::new();
        rest.push(registry);
        assert(rest@.drop_last() =~= Seq::empty());
        assert(layers_in(rest@.drop_last()) == 0);
        proof {
            reveal_with_fuel(download_outcome, 2);
        }
        DownloadWalk { rest }
    }

    /// Finds the layer to ask next: the topmost of those that have not answered. No layer
    /// is asked twice.
    pub fn next(self) -> (turn: DownloadTurn<'a>)
        ensures
            match turn {
                DownloadTurn::Ask { layer, walk } => is_layer(*layer) && layers_in(self.rest@)
                    == layers_in(walk.rest@) + 1 && forall|
                    answer: spec_fn(AnyRegistry) -> Result<Vec<u8>, RegistryError>,
                | #[trigger]
                    self.outcome(answer) == match answer(*layer) {
                        Err(RegistryError::NotFound) => walk.outcome(answer),
                        other => other,
                    },
                DownloadTurn::NotFound => layers_in(self.rest@) == 0 && forall|
                    answer: spec_fn(AnyRegistry) -> Result<Vec<u8>, RegistryError>,
                | #[trigger]
                    self.outcome(answer) == Err::<Vec<u8>, RegistryError>(RegistryError::NotFound),
            },
    {
        let ghost before = self;
        let mut rest = self.rest;
        let mut layer: &'a AnyRegistry = match rest.pop() {
            Some(registry) => registry,
            None => return DownloadTurn::NotFound,
        };
        assert(rest@.push(layer) =~= before.rest@);
        loop
            invariant_except_break
                layers_in(rest@.push(layer)) == layers_in(before.rest@),
                forall|answer: spec_fn(AnyRegistry) -> Result<Vec<u8>, RegistryError>|
                    #[trigger] before.outcome(answer) == download_outcome(
                        rest@.push(layer),
                        answer,
                    ),
            ensures
                is_layer(*layer),
                layers_in(rest@.push(layer)) == layers_in(before.rest@),
                forall|answer: spec_fn(AnyRegistry) -> Result<Vec<u8>, RegistryError>|
                    #[trigger] before.outcome(answer) == download_outcome(
                        rest@.push(layer),
                        answer,
                    ),
            decreases *layer,
        {
            let layers = match layer {
                AnyRegistry::Overlay(layers) => layers,
                _ => break,
            };
            let ghost below = rest@;
            let ghost whole = layer;
            rest.push(&layers.bottom);
            layer = &layers.top;
            proof {
                lemma_layers_opened(below, whole);
                assert forall|answer: spec_fn(AnyRegistry) -> Result<Vec<u8>, RegistryError>|
                    #[trigger] before.outcome(answer) == download_outcome(
                        rest@.push(layer),
                        answer,
                    ) by {
                    lemma_download_opened(below, whole, answer);
                }
            }
        }
        proof {
            assert(rest@.push(layer).drop_last() =~= rest@);
            assert forall|answer: spec_fn(AnyRegistry) -> Result<Vec<u8>, RegistryError>|
                #[trigger] before.outcome(answer) == match answer(*layer) {
                    Err(RegistryError::NotFound) => download_outcome(rest@, answer),
                    other => other,
                } by {
                assert(layers::downloaded(*layer, answer) == answer(*layer));
            }
        }
        DownloadTurn::Ask { layer, walk: DownloadWalk { rest } }
    }

    /// Goes on when the layer has answered: only where it does not have the crate, another
    /// is asked.
    pub fn answered(self, answer: Result<Vec<u8>, RegistryError>) -> (next: DownloadNext<'a>)
        ensures
            next == match answer {
                Err(RegistryError::NotFound) => DownloadNext::GoOn(self),
                _ => DownloadNext::Done(answer),
            },
    {
        match OverlayRegistry::<AnyRegistry, AnyRegistry>::download_top(answer) {
            DownloadStep::AskBottom => DownloadNext::GoOn(self),
            DownloadStep::Done(answer) => DownloadNext::Done(answer),
        }
    }
}

/// A registry laid over another is asked as the two one after the other.
proof fn lemma_download_opened(
    rest: Seq<&AnyRegistry>,
    whole: &AnyRegistry,
    answer: spec_fn(AnyRegistry) -> Result<Vec<u8>, RegistryError>,
)
    requires
        whole is Overlay,
    ensures
        download_outcome(rest.push(whole), answer) == download_outcome(
            rest.push(&whole->Overlay_0.bottom).push(&whole->Overlay_0.top),
            answer,
        ),
{
    reveal_with_fuel(download_outcome, 3);
    let top = whole->Overlay_0.top;
    let bottom = whole->Overlay_0.bottom;
    assert(rest.push(whole).drop_last() =~= rest);
    assert(rest.push(&bottom).push(&top).drop_last() =~= rest.push(&bottom));
    assert(rest.push(&bottom).drop_last() =~= rest);
}

/// The layer that takes what is published: the topmost.
pub open spec fn topmost(registry: AnyRegistry) -> AnyRegistry
    decreases registry,
{
    match registry {
        AnyRegistry::Overlay(overlay) => topmost(overlay.top),
        _ => registry,
    }
}

/// Finds the layer that takes what is published.
pub fn publish_layer(registry: &AnyRegistry) -> (layer: &AnyRegistry)
    ensures
        *layer == topmost(*registry),
        is_layer(*layer),
{
    let mut layer: &AnyRegistry = registry;
    loop
        invariant_except_break
            topmost(*layer) == topmost(*registry),
        ensures
            is_layer(*layer),
            topmost(*layer) == topmost(*registry),
        decreases *layer,
    {
        let layers = match layer {
            AnyRegistry::Overlay(layers) => layers,
            _ => break,
        };
        layer = layers.publish_layer();
    }
    layer
}

/// A registry takes crates where its topmost layer does.
pub proof fn law_topmost_layer_takes_the_crates(registry: AnyRegistry)
    ensures
        layers::takes_crates(registry) == layers::takes_crates(topmost(registry)),
    decreases registry,
{
    if let AnyRegistry::Overlay(overlay) = registry {
        law_topmost_layer_takes_the_crates(overlay.top);
    }
}

} // verus!
