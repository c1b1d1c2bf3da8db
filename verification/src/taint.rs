//! Information-flow labels in the type system.
//!
//! Integrity says who wrote a value and confidentiality whether it may be released. Combining values
//! takes the lower integrity and the higher confidentiality. Only endorsing and declassifying move
//! the other way, and each of them hands back the record that belongs in the audit trail.

use std::marker::PhantomData;

use vstd::prelude::*;

use crate::audit::{AuditEvent, CallSite, Declassification, Endorsement};
use crate::sealed::Sealed;
use crate::text::{copy_texts, join, joined, texts, group_mentions, joining_keeps_every_part, mentions};

verus! {

/// An integrity position.
#[derive(Debug, Clone, Copy, PartialEq, Eq, PartialOrd, Ord, Structural)]
pub enum IntegrityLevel {
    /// Someone other than the operator wrote this.
    Low,
    /// Operator-authored, or vouched for by something trusted.
    High,
}

/// A confidentiality position.
#[derive(Debug, Clone, Copy, PartialEq, Eq, PartialOrd, Ord, Structural)]
pub enum ConfidentialityLevel {
    /// Releasable.
    Public,
    /// Came from a secret-scoped capability.
    Secret,
}

/// Type-level integrity position.
pub trait Integrity: Sealed {
    /// The position.
    spec fn position() -> IntegrityLevel;

    /// The runtime value of this position.
    fn level() -> (r: IntegrityLevel)
        ensures
            r == Self::position(),
    ;
}

/// Type-level confidentiality position.
pub trait Confidentiality: Sealed {
    /// The position.
    spec fn position() -> ConfidentialityLevel;

    /// The runtime value of this position.
    fn level() -> (r: ConfidentialityLevel)
        ensures
            r == Self::position(),
    ;
}

/// Operator-authored: system prompts, configuration, code.
#[derive(Debug, Clone, Copy)]
pub struct High;

/// Anything that the operator did not write.
#[derive(Debug, Clone, Copy)]
pub struct Low;

/// Releasable.
#[derive(Debug, Clone, Copy)]
pub struct Public;

/// Came from a secret-scoped capability.
#[derive(Debug, Clone, Copy)]
pub struct Secret;

impl Sealed for High {

}

impl Sealed for Low {

}

impl Sealed for Public {

}

impl Sealed for Secret {

}

impl Integrity for High {
    open spec fn position() -> IntegrityLevel {
        IntegrityLevel::High
    }

    fn level() -> (r: IntegrityLevel) {
        IntegrityLevel::High
    }
}

impl Integrity for Low {
    open spec fn position() -> IntegrityLevel {
        IntegrityLevel::Low
    }

    fn level() -> (r: IntegrityLevel) {
        IntegrityLevel::Low
    }
}

impl Confidentiality for Public {
    open spec fn position() -> ConfidentialityLevel {
        ConfidentialityLevel::Public
    }

    fn level() -> (r: ConfidentialityLevel) {
        ConfidentialityLevel::Public
    }
}

impl Confidentiality for Secret {
    open spec fn position() -> ConfidentialityLevel {
        ConfidentialityLevel::Secret
    }

    fn level() -> (r: ConfidentialityLevel) {
        ConfidentialityLevel::Secret
    }
}

/// The lower of two integrity positions.
pub open spec fn meet(a: IntegrityLevel, b: IntegrityLevel) -> IntegrityLevel {
    if a == IntegrityLevel::High && b == IntegrityLevel::High {
        IntegrityLevel::High
    } else {
        IntegrityLevel::Low
    }
}

/// The higher of two confidentiality positions.
pub open spec fn lub(a: ConfidentialityLevel, b: ConfidentialityLevel) -> ConfidentialityLevel {
    if a == ConfidentialityLevel::Public && b == ConfidentialityLevel::Public {
        ConfidentialityLevel::Public
    } else {
        ConfidentialityLevel::Secret
    }
}

/// Greatest lower bound of two integrity positions: any `Low` input makes the result `Low`.
pub trait Meet<Rhs: Integrity>: Integrity {
    /// The combined position.
    type Output: Integrity;

    /// The combined position is the lower of the two.
    proof fn output_is_the_meet()
        ensures
            <Self::Output as Integrity>::position() == meet(
                <Self as Integrity>::position(),
                <Rhs as Integrity>::position(),
            ),
    ;
}

impl Meet<High> for High {
    type Output = High;

    proof fn output_is_the_meet() {
    }
}

impl Meet<Low> for High {
    type Output = Low;

    proof fn output_is_the_meet() {
    }
}

impl Meet<High> for Low {
    type Output = Low;

    proof fn output_is_the_meet() {
    }
}

impl Meet<Low> for Low {
    type Output = Low;

    proof fn output_is_the_meet() {
    }
}

/// Least upper bound of two confidentiality positions: any `Secret` input makes the result `Secret`.
pub trait Join<Rhs: Confidentiality>: Confidentiality {
    /// The combined position.
    type Output: Confidentiality;

    /// The combined position is the higher of the two.
    proof fn output_is_the_join()
        ensures
            <Self::Output as Confidentiality>::position() == lub(
                <Self as Confidentiality>::position(),
                <Rhs as Confidentiality>::position(),
            ),
    ;
}

impl Join<Public> for Public {
    type Output = Public;

    proof fn output_is_the_join() {
    }
}

impl Join<Secret> for Public {
    type Output = Secret;

    proof fn output_is_the_join() {
    }
}

impl Join<Public> for Secret {
    type Output = Secret;

    proof fn output_is_the_join() {
    }
}

impl Join<Secret> for Secret {
    type Output = Secret;

    proof fn output_is_the_join() {
    }
}

/// Where a value came from, and what it passed through.
#[derive(Debug, PartialEq, Eq)]
pub struct Provenance {
    /// The immediate source, for example `tool:http_get`.
    pub origin: String,
    /// Everything the value has flowed through since, most recent last.
    pub via: Vec<String>,
}

/// Where a value came from, and what it passed through.
#[verifier::ext_equal]
pub struct ProvenanceView {
    pub origin: Seq<char>,
    pub via: Seq<Seq<char>>,
}

impl View for Provenance {
    type V = ProvenanceView;

    open spec fn view(&self) -> ProvenanceView {
        ProvenanceView { origin: self.origin@, via: texts(self.via@) }
    }
}

impl ProvenanceView {
    /// A one-line summary.
    pub open spec fn summary(self) -> Seq<char> {
        if self.via.len() == 0 {
            self.origin
        } else {
            self.origin + " -> "@ + joined(self.via, " -> "@)
        }
    }

    /// A value straight from `origin`.
    pub open spec fn straight(origin: Seq<char>) -> ProvenanceView {
        ProvenanceView { origin, via: Seq::empty() }
    }

    /// The value passed through another stage.
    pub open spec fn passing(self, stage: Seq<char>) -> ProvenanceView {
        ProvenanceView { origin: self.origin, via: self.via.push(stage) }
    }

    /// Both stories, this one first.
    pub open spec fn merged(self, other: ProvenanceView) -> ProvenanceView {
        ProvenanceView { origin: self.origin, via: self.via.push(other.origin) + other.via }
    }
}

impl Clone for Provenance {
    fn clone(&self) -> (r: Self)
        ensures
            r@ == self@,
    {
        Provenance { origin: self.origin.clone(), via: copy_texts(&self.via) }
    }
}

impl Provenance {
    /// A value straight from `origin`.
    pub fn new(origin: &str) -> (r: Self)
        ensures
            r@ == ProvenanceView::straight(origin@),
    {
        let r = Provenance { origin: origin.to_owned(), via: Vec::new() };
        assert(r@.via == Seq::<Seq<char>>::empty());
        r
    }

    /// A value straight from `kind` and `name`, for example `tool:` and `http_get`.
    pub fn tagged(kind: &str, name: &str) -> (r: Self)
        ensures
            r@ == ProvenanceView::straight(kind@ + name@),
    {
        let mut origin = kind.to_owned();
        origin.push_str(name);
        Provenance::new(origin.as_str())
    }

    /// Note that the value passed through another stage.
    #[must_use]
    pub fn through(self, stage: &str) -> (r: Self)
        ensures
            r@ == self@.passing(stage@),
    {
        let mut r = self;
        r.via.push(stage.to_owned());
        assert(r@.via == self@.via.push(stage@));
        r
    }

    /// Merge two provenances, keeping both stories.
    #[must_use]
    pub fn merge(self, other: Self) -> (r: Self)
        ensures
            r@ == self@.merged(other@),
    {
        let ghost first = self@;
        let ghost second = other@;
        let mut r = self;
        let mut rest = other.via;
        r.via.push(other.origin);
        r.via.append(&mut rest);
        assert(r@.via == first.via.push(second.origin) + second.via);
        r
    }

    /// A one-line summary suitable for an audit record or an error message.
    #[must_use]
    pub fn summary(&self) -> (r: String)
        ensures
            r@ == self@.summary(),
    {
        if self.via.is_empty() {
            self.origin.clone()
        } else {
            let mut s = self.origin.clone();
            s.push_str(" -> ");
            s.push_str(join(&self.via, " -> ").as_str());
            s
        }
    }
}

/// A value carrying an information-flow label.
///
/// The defaults are the safe position: untrusted, not secret.
#[derive(Debug)]
pub struct Tainted<T, I = Low, C = Public> {
    value: T,
    prov: Provenance,
    label: PhantomData<(I, C)>,
}

/// Untrusted and releasable. The common case.
pub type Untrusted<T> = Tainted<T, Low, Public>;

/// Operator-authored and releasable.
pub type Trusted<T> = Tainted<T, High, Public>;

/// Untrusted and confidential.
pub type UntrustedSecret<T> = Tainted<T, Low, Secret>;

/// Operator-authored and confidential.
pub type TrustedSecret<T> = Tainted<T, High, Secret>;

impl<T, I, C> Tainted<T, I, C> {
    /// The value inside.
    pub closed spec fn inner(self) -> T {
        self.value
    }

    /// Where the value came from.
    pub closed spec fn story(self) -> ProvenanceView {
        self.prov@
    }

    /// Wrap a value with an explicit provenance.
    pub fn with_provenance(value: T, prov: Provenance) -> (r: Self)
        ensures
            r.inner() == value,
            r.story() == prov@,
    {
        Tainted { value, prov, label: PhantomData }
    }

    /// Look at the value without taking ownership. Reading is always allowed.
    pub fn peek(&self) -> (r: &T)
        ensures
            *r == self.inner(),
    {
        &self.value
    }

    /// Where this value came from.
    pub fn provenance(&self) -> (r: &Provenance)
        ensures
            r@ == self.story(),
    {
        &self.prov
    }

    /// Transform the value, keeping the label and provenance.
    pub fn map<U, F: FnOnce(T) -> U>(self, f: F) -> (r: Tainted<U, I, C>)
        requires
            call_requires(f, (self.inner(),)),
        ensures
            call_ensures(f, (self.inner(),), r.inner()),
            r.story() == self.story(),
    {
        Tainted { value: f(self.value), prov: self.prov, label: PhantomData }
    }

    /// Note that the value passed through another stage.
    #[must_use]
    pub fn through(self, stage: &str) -> (r: Self)
        ensures
            r.inner() == self.inner(),
            r.story() == self.story().passing(stage@),
    {
        Tainted { value: self.value, prov: self.prov.through(stage), label: PhantomData }
    }

    /// Discard the value, keeping only its story.
    pub fn into_provenance(self) -> (r: Provenance)
        ensures
            r@ == self.story(),
    {
        self.prov
    }
}

impl<T: Clone, I, C> Clone for Tainted<T, I, C> {
    fn clone(&self) -> (r: Self)
        ensures
            cloned::<T>(self.inner(), r.inner()),
            r.story() == self.story(),
    {
        Tainted { value: self.value.clone(), prov: self.prov.clone(), label: PhantomData }
    }
}

impl<T> Tainted<T, Low, Public> {
    /// Label a value that came back from a tool.
    pub fn from_tool(tool: &str, value: T) -> (r: Self)
        ensures
            r.inner() == value,
            r.story() == ProvenanceView::straight("tool:"@ + tool@),
    {
        Tainted::with_provenance(value, Provenance::tagged("tool:", tool))
    }

    /// Label a value that came from a remote peer agent.
    pub fn from_peer(peer: &str, value: T) -> (r: Self)
        ensures
            r.inner() == value,
            r.story() == ProvenanceView::straight("peer:"@ + peer@),
    {
        Tainted::with_provenance(value, Provenance::tagged("peer:", peer))
    }

    /// Label text the model itself produced.
    pub fn from_model(model: &str, value: T) -> (r: Self)
        ensures
            r.inner() == value,
            r.story() == ProvenanceView::straight("model:"@ + model@),
    {
        Tainted::with_provenance(value, Provenance::tagged("model:", model))
    }
}

impl<T> Tainted<T, High, Public> {
    /// Label a value the operator wrote: a system prompt, a config field, a literal in the source.
    pub fn from_operator(what: &str, value: T) -> (r: Self)
        ensures
            r.inner() == value,
            r.story() == ProvenanceView::straight("operator:"@ + what@),
    {
        Tainted::with_provenance(value, Provenance::tagged("operator:", what))
    }

    /// Take the value out. Only available at high integrity and public confidentiality, which is
    /// what every side-effecting sink needs.
    pub fn into_inner(self) -> (r: T)
        ensures
            r == self.inner(),
    {
        self.value
    }
}

impl<T, C: Confidentiality> Tainted<T, Low, C> {
    /// Raise integrity from `Low` to `High`, with the record for the audit trail.
    #[must_use]
    pub fn endorse(self, reason: Endorsement, site: CallSite) -> (r: (Tainted<T, High, C>, AuditEvent))
        ensures
            r.0.inner() == self.inner(),
            r.0.story() == self.story(),
            r.1 matches AuditEvent::Endorsed { site: s, reason: why, origin } && s == site && why
                == reason && origin@ == self.story().summary(),
    {
        let origin = self.prov.summary();
        (
            Tainted { value: self.value, prov: self.prov, label: PhantomData },
            AuditEvent::Endorsed { site, reason, origin },
        )
    }
}

impl<T, I: Integrity> Tainted<T, I, Secret> {
    /// Lower confidentiality from `Secret` to `Public`, with the record for the audit trail.
    #[must_use]
    pub fn declassify(self, reason: Declassification, site: CallSite) -> (r: (
        Tainted<T, I, Public>,
        AuditEvent,
    ))
        ensures
            r.0.inner() == self.inner(),
            r.0.story() == self.story(),
            r.1 matches AuditEvent::Declassified { site: s, reason: why, origin } && s == site
                && why == reason && origin@ == self.story().summary(),
    {
        let origin = self.prov.summary();
        (
            Tainted { value: self.value, prov: self.prov, label: PhantomData },
            AuditEvent::Declassified { site, reason, origin },
        )
    }
}

impl<T, I: Integrity, C: Confidentiality> Tainted<T, I, C> {
    /// The runtime label, for policy checks and error messages.
    pub fn label(&self) -> (r: (IntegrityLevel, ConfidentialityLevel))
        ensures
            r.0 == <I as Integrity>::position(),
            r.1 == <C as Confidentiality>::position(),
    {
        (I::level(), C::level())
    }

    /// Combine with another labelled value. Integrity meets, confidentiality joins.
    pub fn zip<U, I2: Integrity, C2: Confidentiality>(self, other: Tainted<U, I2, C2>) -> (r: Tainted<
        (T, U),
        <I as Meet<I2>>::Output,
        <C as Join<C2>>::Output,
    >) where I: Meet<I2>, C: Join<C2>
        ensures
            r.inner() == (self.inner(), other.inner()),
            r.story() == self.story().merged(other.story()),
            <<I as Meet<I2>>::Output as Integrity>::position() == meet(
                <I as Integrity>::position(),
                <I2 as Integrity>::position(),
            ),
            <<C as Join<C2>>::Output as Confidentiality>::position() == lub(
                <C as Confidentiality>::position(),
                <C2 as Confidentiality>::position(),
            ),
    {
        proof {
            <I as Meet<I2>>::output_is_the_meet();
            <C as Join<C2>>::output_is_the_join();
        }
        Tainted {
            value: (self.value, other.value),
            prov: self.prov.merge(other.prov),
            label: PhantomData,
        }
    }

    /// Move to a safer position: integrity may only fall, confidentiality may only rise.
    pub fn downgrade<I2: Integrity, C2: Confidentiality>(self) -> (r: Tainted<T, I2, C2>) where
        I: Meet<I2, Output = I2>,
        C: Join<C2, Output = C2>,

        ensures
            r.inner() == self.inner(),
            r.story() == self.story(),
            <I2 as Integrity>::position() == meet(
                <I as Integrity>::position(),
                <I2 as Integrity>::position(),
            ),
            <C2 as Confidentiality>::position() == lub(
                <C as Confidentiality>::position(),
                <C2 as Confidentiality>::position(),
            ),
    {
        proof {
            <I as Meet<I2>>::output_is_the_meet();
            <C as Join<C2>>::output_is_the_join();
        }
        Tainted { value: self.value, prov: self.prov, label: PhantomData }
    }

    /// Run a validator. Success narrows the type and raises integrity, because the validator
    /// decided the shape, and comes with the record for the audit trail.
    pub fn validate<V: Validated<T>>(self, site: CallSite) -> (r: Result<
        (Tainted<V::Output, High, C>, AuditEvent),
        ValidationFailed<V::Error>,
    >)
        ensures
            exists|verdict: Result<V::Output, V::Error>, name: &'static str|
                {
                    &&& #[trigger] call_ensures(V::validate, (self.inner(),), verdict)
                    &&& #[trigger] call_ensures(V::name, (), name)
                    &&& judged::<V::Output, V::Error, C>(self.story(), name@, verdict, site, r)
                },
    {
        let Tainted { value, prov, label } = self;
        let verdict = V::validate(value);
        let name = V::name();
        assert(call_ensures(V::validate, (self.inner(),), verdict));
        judge(prov, name, verdict, site)
    }
}

/// What the verdict of the validator `name` on a value from `story` comes to.
pub open spec fn judged<O, E, C: Confidentiality>(
    story: ProvenanceView,
    name: Seq<char>,
    verdict: Result<O, E>,
    site: CallSite,
    r: Result<(Tainted<O, High, C>, AuditEvent), ValidationFailed<E>>,
) -> bool {
    match (verdict, r) {
        (Ok(out), Ok((narrowed, record))) => {
            &&& narrowed.inner() == out
            &&& narrowed.story() == story.passing("validate:"@ + name)
            &&& record matches AuditEvent::Endorsed { site: s, reason, origin } && {
                &&& s == site
                &&& reason matches Endorsement::Parsed { validator } && validator@ == name
                &&& origin@ == story.summary()
            }
        },
        (Err(e), Err(failed)) => {
            &&& failed.error == e
            &&& failed.validator@ == name
            &&& failed.provenance@ == story
        },
        _ => false,
    }
}

/// Turn a validator's verdict into an endorsed value with its record, or a failure that can be
/// traced to where the value came from.
pub fn judge<O, E, C: Confidentiality>(
    prov: Provenance,
    validator: &'static str,
    verdict: Result<O, E>,
    site: CallSite,
) -> (r: Result<(Tainted<O, High, C>, AuditEvent), ValidationFailed<E>>)
    ensures
        judged::<O, E, C>(prov@, validator@, verdict, site, r),
{
    match verdict {
        Ok(out) => {
            let origin = prov.summary();
            let mut stage = "validate:".to_owned();
            stage.push_str(validator);
            let narrowed = Tainted {
                value: out,
                prov: prov.through(stage.as_str()),
                label: PhantomData,
            };
            Ok(
                (
                    narrowed,
                    AuditEvent::Endorsed {
                        site,
                        reason: Endorsement::Parsed { validator },
                        origin,
                    },
                ),
            )
        },
        Err(error) => Err(ValidationFailed { validator, provenance: prov, error }),
    }
}

/// A parser that is trusted to decide whether raw input has an acceptable shape.
pub trait Validated<Raw> {
    /// The narrowed type produced on success.
    type Output;

    /// Why validation failed.
    type Error;

    /// What this validator is called in the audit trail.
    fn name() -> &'static str;

    /// Attempt to narrow `raw`.
    fn validate(raw: Raw) -> Result<Self::Output, Self::Error>;
}

/// A validator rejected the value.
#[derive(Debug, PartialEq, Eq)]
pub struct ValidationFailed<E> {
    /// Which validator rejected it.
    pub validator: &'static str,
    /// Where the bad value came from.
    pub provenance: Provenance,
    /// The validator's own error.
    pub error: E,
}

impl<E> ValidationFailed<E> {
    /// The failure as one sentence, given the validator's own error as text.
    #[must_use]
    pub fn describe(&self, error: &str) -> (r: String)
        ensures
            r@ == self.validator@ + " rejected a value from "@ + self.provenance@.summary() + ": "@
                + error@,
    {
        let mut s = self.validator.to_owned();
        s.push_str(" rejected a value from ");
        s.push_str(self.provenance.summary().as_str());
        s.push_str(": ");
        s.push_str(error);
        s
    }
}

/// A low position is kept by everything that a value is combined with, and a secret one too:
/// combining never raises integrity and never lowers confidentiality.
pub proof fn combining_is_safe(
    a: IntegrityLevel,
    b: IntegrityLevel,
    c: ConfidentialityLevel,
    d: ConfidentialityLevel,
)
    ensures
        a == IntegrityLevel::Low || b == IntegrityLevel::Low ==> meet(a, b) == IntegrityLevel::Low,
        c == ConfidentialityLevel::Secret || d == ConfidentialityLevel::Secret ==> lub(c, d)
            == ConfidentialityLevel::Secret,
        meet(a, b) == meet(b, a),
        lub(c, d) == lub(d, c),
        meet(a, a) == a,
        lub(c, c) == c,
{
}

/// Combining two values forgets nothing of where either came from.
pub proof fn stories_survive_combination(a: ProvenanceView, b: ProvenanceView)
    ensures
        a.merged(b).origin == a.origin,
        a.via.is_prefix_of(a.merged(b).via),
        a.merged(b).via.contains(b.origin),
        b.via == a.merged(b).via.skip(a.via.len() as int + 1),
{
    let m = a.merged(b).via;
    assert(m[a.via.len() as int] == b.origin);
    assert(a.via == m.subrange(0, a.via.len() as int));
    assert(b.via == m.skip(a.via.len() as int + 1));
}

/// A story in one line names its origin and every stage it went through.
pub proof fn a_summary_names_every_stage(story: ProvenanceView, i: int)
    requires
        0 <= i < story.via.len(),
    ensures
        mentions(story.summary(), story.origin),
        mentions(story.summary(), story.via[i]),
        ProvenanceView::straight(story.origin).summary() == story.origin,
{
    broadcast use group_mentions;

    joining_keeps_every_part(story.via, " -> "@, i, story.via[i]);
}

/// A stage that a value passes is the last of its story, and nothing of the story so far is lost.
pub proof fn passing_a_stage_adds_it(story: ProvenanceView, stage: Seq<char>)
    ensures
        story.passing(stage).origin == story.origin,
        story.passing(stage).via.len() == story.via.len() + 1,
        story.passing(stage).via.last() == stage,
        story.passing(stage).via.drop_last() == story.via,
        ProvenanceView::straight(story.origin).via.len() == 0 && ProvenanceView::straight(story.origin).origin == story.origin,
{
}

/// A value that a validator accepts is what the validator made of it, its story says which validator
/// that was, and the record says where, by which validator and what came in. A value that it
/// refuses comes back with the reason and its story as it was.
pub proof fn validation_is_recorded<O, E, C: Confidentiality>(
    story: ProvenanceView,
    name: Seq<char>,
    verdict: Result<O, E>,
    site: CallSite,
    r: Result<(Tainted<O, High, C>, AuditEvent), ValidationFailed<E>>,
)
    requires
        judged(story, name, verdict, site, r),
    ensures
        r is Ok <==> verdict is Ok,
        r is Ok ==> r->Ok_0.0.inner() == verdict->Ok_0 && r->Ok_0.0.story().origin == story.origin
            && r->Ok_0.0.story().via.len() == story.via.len() + 1 && mentions(
            r->Ok_0.0.story().via.last(),
            name,
        ),
        r is Ok ==> match r->Ok_0.1 {
            AuditEvent::Endorsed { site: s, reason: Endorsement::Parsed { validator }, origin } => {
                s == site && validator@ == name && mentions(origin@, story.origin)
            },
            _ => false,
        },
        r is Err ==> r->Err_0.error == verdict->Err_0 && r->Err_0.validator@ == name
            && r->Err_0.provenance@ == story,
{
    broadcast use group_mentions;

}

} // verus!
