//! PublishSession: the one-shot announce flow. A descriptor is validated and
//! turned into the protocol's fully-qualified instance name; registration
//! with the discovery daemon and the optional delayed unregistration then
//! follow the lifecycle Registered -> Unregistering -> Unregistered, with
//! exactly one terminal outcome.

use vstd::prelude::*;

verus! {

/// Why an announce attempt was refused.
#[derive(Clone, Copy, PartialEq, Eq, Structural, Debug)]
pub enum AnnounceError {
    /// A required field (service type, instance name, port) is missing or malformed.
    InvalidDescriptor,
    /// The discovery collaborator rejected the descriptor.
    RegistrationFailed,
}

/// The single terminal result of an unregistration.
#[derive(Clone, Copy, PartialEq, Eq, Structural, Debug)]
pub enum UnregisterOutcome {
    Success,
    Failure,
}

/// The lifecycle of one announced service.
#[derive(Clone, Copy, PartialEq, Eq, Structural, Debug)]
pub enum AnnounceState {
    Created,
    Registered,
    Unregistering,
    Unregistered,
}

/// What a caller asks to announce: type, instance name, host, port,
/// addresses (empty means: let the daemon pick them up automatically),
/// and TXT attributes.
pub struct ServiceDescriptor {
    pub service_type: String,
    pub instance: String,
    pub host: String,
    pub port: u16,
    pub addresses: Vec<String>,
    pub attributes: Vec<(String, String)>,
}

/// The required fields of a descriptor are present: a service type, an
/// instance name, and a non-zero port.
pub open spec fn required_ok(ty: Seq<char>, instance: Seq<char>, port: u16) -> bool {
    ty.len() > 0 && instance.len() > 0 && port != 0
}

/// Escaping of one instance-name character for use inside a full name:
/// a literal dot or backslash is preceded by a backslash.
pub open spec fn escape_char(c: char) -> Seq<char> {
    if c == '.' {
        seq!['\\', '.']
    } else if c == '\\' {
        seq!['\\', '\\']
    } else {
        seq![c]
    }
}

/// The instance name with its dots and backslashes escaped.
pub open spec fn escape_seq(s: Seq<char>) -> Seq<char>
    decreases s.len(),
{
    if s.len() == 0 {
        Seq::empty()
    } else {
        escape_char(s[0]) + escape_seq(s.skip(1))
    }
}

/// The subtype marker of the protocol's service-type grammar.
pub open spec fn sub_marker() -> Seq<char> {
    seq!['.', '_', 's', 'u', 'b', '.']
}

/// Does the service type carry a subtype part?
pub open spec fn has_sub_marker(ty: Seq<char>) -> bool {
    exists|i: int| 0 <= i && i + 6 <= ty.len() && #[trigger] ty.subrange(i, i + 6) == sub_marker()
}

/// Only ASCII characters.
pub open spec fn ascii_seq(s: Seq<char>) -> bool {
    forall|i: int| 0 <= i < s.len() ==> (s[i] as u32) < 128
}

/// Attributes that the protocol accepts on the wire: ASCII keys without '=',
/// ASCII values, and each key/value pair short enough for one TXT string.
pub open spec fn attrs_wire_safe(attrs: Seq<(Seq<char>, Seq<char>)>) -> bool {
    forall|i: int|
        0 <= i < attrs.len() ==> {
            &&& ascii_seq((#[trigger] attrs[i]).0)
            &&& ascii_seq(attrs[i].1)
            &&& !attrs[i].0.contains('=')
            &&& attrs[i].0.len() + attrs[i].1.len() + 1 <= 255
        }
}

/// Whether the discovery collaborator accepts this descriptor; decided by
/// `mdns_sd::ServiceInfo::new` from its arguments alone.
pub uninterp spec fn announce_accepted(
    service_type: Seq<char>,
    instance: Seq<char>,
    host: Seq<char>,
    port: u16,
    attributes: Seq<(Seq<char>, Seq<char>)>,
) -> bool;

#[verifier::external_type_specification]
#[verifier::external_body]
pub struct ExMdnsError(mdns_sd::Error);

/// Relies on mdns_sd::ServiceInfo::new (with no explicit addresses) and
/// ServiceInfo::get_fullname: construction validates the TXT attributes after
/// first-occurrence collapse — wire-safe attributes always pass — and on
/// success the full name is the escaped instance name, a dot, and the service
/// type (the plain type; a subtype part is split off first).
#[verifier::external_body]
fn announce_fullname(
    service_type: &str,
    instance: &str,
    host: &str,
    port: u16,
    attributes: &Vec<(String, String)>,
) -> (r: Result<String, mdns_sd::Error>)
    ensures
        (r is Ok) == announce_accepted(
            service_type@,
            instance@,
            host@,
            port,
            attributes.deep_view(),
        ),
        attrs_wire_safe(attributes.deep_view()) ==> r is Ok,
        r is Ok && !has_sub_marker(service_type@) ==> r->Ok_0@ == escape_seq(instance@)
            + seq!['.'] + service_type@,
{
    match mdns_sd::ServiceInfo::new(service_type, instance, host, "", port, &attributes[..]) {
        Ok(info) => Ok(info.get_fullname().to_string()),
        Err(e) => Err(e),
    }
}

/// The abstract state of a publish session.
pub struct AnnounceModel {
    pub state: AnnounceState,
    pub identity: Option<Seq<char>>,
}

/// One announced service and its lifecycle.
pub struct PublishSession {
    state: AnnounceState,
    identity: Option<String>,
}

impl View for PublishSession {
    type V = AnnounceModel;

    closed spec fn view(&self) -> AnnounceModel {
        AnnounceModel {
            state: self.state,
            identity: match self.identity {
                Some(ref s) => Some(s@),
                None => None,
            },
        }
    }
}

impl PublishSession {
    #[verifier::type_invariant]
    spec fn wf(&self) -> bool {
        (self.state == AnnounceState::Created) <==> (self.identity is None)
    }

    /// A fresh session that has announced nothing yet.
    pub fn new() -> (r: Self)
        ensures
            r@.state == AnnounceState::Created,
            r@.identity is None,
    {
        PublishSession { state: AnnounceState::Created, identity: None }
    }

    /// Submits a descriptor: a missing required field is refused as
    /// `InvalidDescriptor`; a descriptor the collaborator rejects, as
    /// `RegistrationFailed`; otherwise the session is Registered and the
    /// fully-qualified identity used for later unregistration is returned.
    pub fn register(&mut self, d: &ServiceDescriptor) -> (r: Result<String, AnnounceError>)
        requires
            old(self)@.state == AnnounceState::Created,
        ensures
            (r is Err && r->Err_0 == AnnounceError::InvalidDescriptor) <==> !required_ok(
                d.service_type@,
                d.instance@,
                d.port,
            ),
            (r is Err && r->Err_0 == AnnounceError::RegistrationFailed) <==> (required_ok(
                d.service_type@,
                d.instance@,
                d.port,
            ) && !announce_accepted(
                d.service_type@,
                d.instance@,
                d.host@,
                d.port,
                d.attributes.deep_view(),
            )),
            (r is Ok) <==> (required_ok(d.service_type@, d.instance@, d.port)
                && announce_accepted(
                d.service_type@,
                d.instance@,
                d.host@,
                d.port,
                d.attributes.deep_view(),
            )),
            required_ok(d.service_type@, d.instance@, d.port) && attrs_wire_safe(
                d.attributes.deep_view(),
            ) ==> r is Ok,
            r is Ok && !has_sub_marker(d.service_type@) ==> r->Ok_0@ == escape_seq(d.instance@)
                + seq!['.'] + d.service_type@,
            r is Ok ==> final (self)@.state == AnnounceState::Registered && final (self)@.identity
                == Some(r->Ok_0@),
            r is Err ==> final (self)@ == old(self)@,
    {
        proof {
            use_type_invariant(&*self);
        }
        if self.check_required(d) {
            match announce_fullname(
                d.service_type.as_str(),
                d.instance.as_str(),
                d.host.as_str(),
                d.port,
                &d.attributes,
            ) {
                Ok(fullname) => {
                    let identity = fullname.clone();
                    *self = PublishSession {
                        state: AnnounceState::Registered,
                        identity: Some(identity),
                    };
                    Ok(fullname)
                },
                Err(_) => Err(AnnounceError::RegistrationFailed),
            }
        } else {
            Err(AnnounceError::InvalidDescriptor)
        }
    }

    /// Are the required descriptor fields present?
    fn check_required(&self, d: &ServiceDescriptor) -> (r: bool)
        ensures
            r == required_ok(d.service_type@, d.instance@, d.port),
    {
        !d.service_type.as_str().is_empty() && !d.instance.as_str().is_empty() && d.port != 0
    }

    /// Begins the unconditional immediate unregistration; returns the
    /// identity to hand to the discovery collaborator.
    pub fn unregister_now(&mut self) -> (id: String)
        requires
            old(self)@.state == AnnounceState::Registered,
        ensures
            final (self)@.state == AnnounceState::Unregistering,
            final (self)@.identity == old(self)@.identity,
            Some(id@) == old(self)@.identity,
    {
        proof {
            use_type_invariant(&*self);
        }
        let id = match &self.identity {
            Some(s) => s.clone(),
            None => vstd::pervasive::unreached(),
        };
        self.state = AnnounceState::Unregistering;
        id
    }

    /// Begins the delayed unregistration: the caller waits out the returned
    /// delay and then issues the unregister call with the returned identity.
    /// Once begun, the unregistration always fires; there is no cancelling.
    pub fn unregister_after(&mut self, delay_ms: u64) -> (r: (String, u64))
        requires
            old(self)@.state == AnnounceState::Registered,
        ensures
            final (self)@.state == AnnounceState::Unregistering,
            final (self)@.identity == old(self)@.identity,
            Some(r.0@) == old(self)@.identity,
            r.1 == delay_ms,
    {
        let id = self.unregister_now();
        (id, delay_ms)
    }

    /// Consumes the collaborator's answer and delivers the single terminal
    /// outcome of the unregistration. Terminal: the session cannot move again.
    pub fn finish_unregister(&mut self, success: bool) -> (outcome: UnregisterOutcome)
        requires
            old(self)@.state == AnnounceState::Unregistering,
        ensures
            final (self)@.state == AnnounceState::Unregistered,
            final (self)@.identity == old(self)@.identity,
            outcome == (if success {
                UnregisterOutcome::Success
            } else {
                UnregisterOutcome::Failure
            }),
    {
        proof {
            use_type_invariant(&*self);
        }
        self.state = AnnounceState::Unregistered;
        if success {
            UnregisterOutcome::Success
        } else {
            UnregisterOutcome::Failure
        }
    }

    /// The current lifecycle state.
    pub fn state(&self) -> (r: AnnounceState)
        ensures
            r == self@.state,
    {
        self.state
    }

    /// The identity under which the service was announced, once registered.
    pub fn identity(&self) -> (r: Option<&String>)
        ensures
            r is Some <==> self@.identity is Some,
            r is Some ==> r->0@ == self@.identity->0,
    {
        match &self.identity {
            Some(s) => Some(s),
            None => None,
        }
    }
}

} // verus!
