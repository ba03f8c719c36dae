//! Placeholders: named renderers that a template calls as `{{name(settings)}}`.

use vstd::prelude::*;
use crate::error::Error;
use crate::record::Record;
use crate::value::Json;

pub mod standard_placeholders;

verus! {

/// A placeholder of any kind.
pub type DynPlaceholder = Box<dyn Placeholder>;

/// A builder of placeholders of any kind.
pub type DynPlaceholderBuilder = Box<dyn PlaceholderBuilder<DynPlaceholder>>;

/// The registry of placeholder builders. It is searched in order and the
/// first builder of a name wins.
pub type PlaceHolders = Vec<DynPlaceholderBuilder>;

/// Makes placeholders of one name from their settings, once, when a template
/// is compiled.
///
/// What a builder promises of its methods it says in `answers_to` and
/// `builds`. A builder that says nothing promises nothing.
pub trait PlaceholderBuilder<P: Placeholder> {
    /// Whether `name` may be the name that the builder gives.
    open spec fn answers_to(&self, name: Seq<char>) -> bool {
        true
    }

    /// Whether `out` may be what the builder makes of the settings `value`.
    open spec fn builds(&self, value: Option<Json>, out: Result<P, Error>) -> bool {
        true
    }

    /// The name that templates call the placeholder by.
    fn name(&self) -> (out: &'static str)
        ensures
            self.answers_to(out@),
    ;

    /// Checks the settings and creates a placeholder.
    fn build(&self, value: Option<Json>) -> (out: Result<P, Error>)
        ensures
            self.builds(value, out),
    ;
}

/// A configured renderer: it turns a record into a piece of the message.
///
/// What a placeholder promises of its methods it says in `renders` and
/// `keeps`. A placeholder that says nothing promises nothing: one that reads
/// the clock or the environment renders what it finds there.
pub trait Placeholder: Send + Sync {
    /// Whether `out` may be what the placeholder renders `record` as.
    open spec fn renders(&self, record: Record, out: Seq<char>) -> bool {
        true
    }

    /// Whether `out` may be what the placeholder gives as its settings.
    open spec fn keeps(&self, out: Option<Json>) -> bool {
        true
    }

    fn build_message(&self, record: &Record) -> (out: String)
        ensures
            self.renders(*record, out@),
    ;

    /// The settings received at creation, for inspection only.
    fn settings(&self) -> (out: Option<Json>)
        ensures
            self.keeps(out),
    ;
}

/// Adds a builder to a registry, behind those that are in it.
pub fn register<B>(registry: Vec<B>, builder: B) -> (out: Vec<B>)
    ensures
        out@ == registry@.push(builder),
        out@.len() == registry@.len() + 1,
        out@[registry@.len() as int] == builder,
        forall|i: int| 0 <= i < registry@.len() ==> out@[i] == registry@[i],
{
    let mut out = registry;
    out.push(builder);
    out
}

/// A registry without builders.
pub fn empty_registry<B>() -> (out: Vec<B>)
    ensures
        out@.len() == 0,
{
    Vec::new()
}

/// Whether a registry is the standard one: the builders of the message, the
/// level and the module placeholder, in this order, each answering and
/// building as that builder does.
pub open spec fn standard_registry(registry: Seq<DynPlaceholderBuilder>) -> bool {
    &&& registry.len() == 3
    &&& forall|name: Seq<char>| #[trigger]
        registry[0].answers_to(name) <==> (standard_placeholders::MessagePlaceholderBuilder {
        }).answers_to(name)
    &&& forall|value: Option<Json>, out: Result<DynPlaceholder, Error>| #[trigger]
        registry[0].builds(value, out) <==> (standard_placeholders::MessagePlaceholderBuilder {
        }).builds(value, out)
    &&& forall|name: Seq<char>| #[trigger]
        registry[1].answers_to(name) <==> (standard_placeholders::LevelPlaceHolderBuilder {
        }).answers_to(name)
    &&& forall|value: Option<Json>, out: Result<DynPlaceholder, Error>| #[trigger]
        registry[1].builds(value, out) <==> (standard_placeholders::LevelPlaceHolderBuilder {
        }).builds(value, out)
    &&& forall|name: Seq<char>| #[trigger]
        registry[2].answers_to(name) <==> (standard_placeholders::ModulePlaceHolderBuilder {
        }).answers_to(name)
    &&& forall|value: Option<Json>, out: Result<DynPlaceholder, Error>| #[trigger]
        registry[2].builds(value, out) <==> (standard_placeholders::ModulePlaceHolderBuilder {
        }).builds(value, out)
}

/// The builders of the message, the level and the module placeholder, in
/// this order.
pub fn default_placeholders() -> (out: PlaceHolders)
    ensures
        standard_registry(out@),
{
    let placeholders: PlaceHolders = empty_registry();
    let placeholders = register(
        placeholders,
        Box::new(standard_placeholders::MessagePlaceholderBuilder {  }),
    );
    let placeholders = register(
        placeholders,
        Box::new(standard_placeholders::LevelPlaceHolderBuilder {  }),
    );
    register(placeholders, Box::new(standard_placeholders::ModulePlaceHolderBuilder {  }))
}

/// A boxed placeholder is the placeholder in the box: it promises what that
/// one promises and renders what that one renders.
impl Placeholder for Box<dyn Placeholder> {
    open spec fn renders(&self, record: Record, out: Seq<char>) -> bool {
        (**self).renders(record, out)
    }

    open spec fn keeps(&self, out: Option<Json>) -> bool {
        (**self).keeps(out)
    }

    fn build_message(&self, record: &Record) -> (out: String) {
        (**self).build_message(record)
    }

    fn settings(&self) -> (out: Option<Json>) {
        (**self).settings()
    }
}

/// A boxed builder is the builder in the box.
impl<P: Placeholder> PlaceholderBuilder<P> for Box<dyn PlaceholderBuilder<P>> {
    open spec fn answers_to(&self, name: Seq<char>) -> bool {
        (**self).answers_to(name)
    }

    open spec fn builds(&self, value: Option<Json>, out: Result<P, Error>) -> bool {
        (**self).builds(value, out)
    }

    fn name(&self) -> (out: &'static str) {
        (**self).name()
    }

    fn build(&self, value: Option<Json>) -> (out: Result<P, Error>) {
        (**self).build(value)
    }
}

} // verus!
