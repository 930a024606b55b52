//! Device contexts and protection domains: opening them, and setting up the
//! loopback queue pair that goes with them.

use crate::rdma::primitives::IbvQpInfo;
use crate::text::{same, texts};
use vstd::prelude::*;

verus! {

/// The context of an RDMA device and a protection domain in it, by their handles.
#[derive(Debug, Clone, Copy, PartialEq, Eq, Structural)]
pub struct IbvDomain {
    pub context: usize,
    pub pd: usize,
}

/// A queue pair, by its handle; zero where there is none.
#[derive(Debug, Clone, Copy, PartialEq, Eq, Structural)]
pub struct RdmaQueuePair {
    pub qp: usize,
}

/// Why a domain could not be opened.
#[derive(Debug)]
pub enum OpenError {
    /// There are no RDMA devices.
    NoDevices,
    /// There is no device of that name.
    NotFound(String),
    /// The device could not be opened; with the system's error.
    Context(String),
    /// There is no protection domain to be had; with the system's error.
    ProtectionDomain(String),
}

/// How an `OpenError` is written.
pub open spec fn open_error_text(e: OpenError) -> Seq<char> {
    match e {
        OpenError::NoDevices => "no RDMA devices found"@,
        OpenError::NotFound(name) => "device '"@ + name@ + "' not found"@,
        OpenError::Context(os) => "failed to create context: "@ + os@,
        OpenError::ProtectionDomain(os) => "failed to create protection domain (PD): "@ + os@,
    }
}

impl OpenError {
    /// The error, written for a reader.
    pub fn text(&self) -> (s: String)
        ensures
            s@ == open_error_text(*self),
    {
        match self {
            OpenError::NoDevices => "no RDMA devices found".to_owned(),
            OpenError::NotFound(name) => {
                let mut s: String = "device '".to_owned();
                s.append(name.as_str());
                s.append("' not found");
                s
            },
            OpenError::Context(os) => {
                let mut s: String = "failed to create context: ".to_owned();
                s.append(os.as_str());
                s
            },
            OpenError::ProtectionDomain(os) => {
                let mut s: String = "failed to create protection domain (PD): ".to_owned();
                s.append(os.as_str());
                s
            },
        }
    }
}

/// What is to be done next to open a domain.
#[derive(Debug)]
pub enum OpenStage {
    /// Open the device at this place of the device list.
    OpenDevice { index: usize },
    /// Allocate a protection domain in this context.
    AllocPd { context: usize },
    /// The domain is open. Free the device list.
    Opened(IbvDomain),
    /// It cannot be opened. Close the context that is given, then free the
    /// device list if that is asked for.
    Failed { error: OpenError, close: Option<usize>, free_list: bool },
}

/// The first place of a name.
pub open spec fn name_place(names: Seq<Seq<char>>, name: Seq<char>) -> Option<int>
    decreases names.len(),
{
    if names.len() == 0 {
        None
    } else if names[0] == name {
        Some(0)
    } else {
        match name_place(names.drop_first(), name) {
            Some(i) => Some(i + 1),
            None => None,
        }
    }
}

/// The stage at which opening a device begins.
pub open spec fn first_open_stage(device_name: String, names: Option<Vec<String>>) -> OpenStage {
    match names {
        None => OpenStage::Failed { error: OpenError::NoDevices, close: None, free_list: false },
        Some(list) => if list@.len() == 0 {
            OpenStage::Failed { error: OpenError::NoDevices, close: None, free_list: false }
        } else {
            match name_place(texts(list@), device_name@) {
                Some(i) => OpenStage::OpenDevice { index: i as usize },
                None => OpenStage::Failed { error: OpenError::NotFound(device_name), close: None, free_list: true },
            }
        },
    }
}

/// The stage that follows on the context of a device.
pub open spec fn stage_on_context(context: Result<usize, String>) -> OpenStage {
    match context {
        Ok(context) => OpenStage::AllocPd { context },
        Err(os) => OpenStage::Failed { error: OpenError::Context(os), close: None, free_list: true },
    }
}

/// The stage that follows on a protection domain.
pub open spec fn stage_on_pd(context: usize, pd: Result<usize, String>) -> OpenStage {
    match pd {
        Ok(pd) => OpenStage::Opened(IbvDomain { context, pd }),
        Err(os) => OpenStage::Failed { error: OpenError::ProtectionDomain(os), close: Some(context), free_list: true },
    }
}

/// What was taken is given back where a domain cannot be opened: the device list
/// wherever there was one with devices, and the context of the device where it
/// had been opened. A domain that is opened is of that context.
pub proof fn what_was_taken_is_given_back(
    device_name: String,
    names: Option<Vec<String>>,
    context: Result<usize, String>,
    opened: usize,
    pd: Result<usize, String>,
)
    ensures
        first_open_stage(device_name, names) matches OpenStage::Failed { close, free_list, .. } ==> close is None && (
        free_list <==> (names matches Some(list) && list@.len() > 0)),
        first_open_stage(device_name, names) matches OpenStage::Failed { error, .. } ==> (error is NoDevices <==> !(
        names matches Some(list) && list@.len() > 0)) && (!(error is NoDevices) ==> error == OpenError::NotFound(
            device_name,
        )),
        first_open_stage(device_name, names) is OpenDevice <==> (names matches Some(list) && texts(list@).contains(
            device_name@,
        )),
        stage_on_context(context) matches OpenStage::AllocPd { context: c } ==> context == Ok::<usize, String>(c),
        stage_on_context(context) is AllocPd <==> context is Ok,
        stage_on_context(context) matches OpenStage::Failed { error, close, free_list } ==> close is None && free_list
            && context is Err && error == OpenError::Context(context->Err_0),
        stage_on_context(context) is Failed <==> context is Err,
        stage_on_pd(opened, pd) matches OpenStage::Opened(domain) ==> domain.context == opened && pd == Ok::<usize, String>(
            domain.pd,
        ),
        stage_on_pd(opened, pd) matches OpenStage::Failed { error, close, free_list } ==> close == Some(opened)
            && free_list && pd is Err && error == OpenError::ProtectionDomain(pd->Err_0),
        stage_on_pd(opened, pd) is Opened <==> pd is Ok,
        stage_on_pd(opened, pd) is Failed <==> pd is Err,
{
    if let Some(list) = names {
        names_are_found_where_they_stand(texts(list@), device_name@);
    }
}

impl IbvDomain {
    /// Starts to open the device of that name; `names` are the names of the
    /// listed devices, `None` where there is no list.
    pub fn new(device_name: &String, names: &Option<Vec<String>>) -> (stage: OpenStage)
        ensures
            stage == first_open_stage(*device_name, *names),
            stage matches OpenStage::OpenDevice { index } ==> *names matches Some(list) && index < list@.len()
                && list@[index as int]@ == device_name@,
    {
        let list: &Vec<String> = match names {
            Some(list) => list,
            None => {
                return OpenStage::Failed { error: OpenError::NoDevices, close: None, free_list: false };
            },
        };
        if list.len() == 0 {
            return OpenStage::Failed { error: OpenError::NoDevices, close: None, free_list: false };
        }
        let ghost all = texts(list@);
        let mut i: usize = 0;
        assert(all.skip(0) =~= all);
        while i < list.len()
            invariant
                i <= list@.len(),
                list@.len() > 0,
                all == texts(list@),
                *names == Some(*list),
                name_place(all, device_name@) == (match name_place(all.skip(i as int), device_name@) {
                    Some(k) => Some(k + i),
                    None => None,
                }),
            decreases list@.len() - i,
        {
            assert(all.skip(i as int)[0] == list@[i as int]@);
            assert(all.skip(i as int).drop_first() =~= all.skip(i + 1));
            if same(list[i].as_str(), device_name.as_str()) {
                return OpenStage::OpenDevice { index: i };
            }
            i = i + 1;
        }
        OpenStage::Failed { error: OpenError::NotFound(device_name.clone()), close: None, free_list: true }
    }

    /// Goes on with the context of the opened device, or with the system's error.
    pub fn on_context(context: Result<usize, String>) -> (stage: OpenStage)
        ensures
            stage == stage_on_context(context),
    {
        match context {
            Ok(context) => OpenStage::AllocPd { context },
            Err(os) => OpenStage::Failed { error: OpenError::Context(os), close: None, free_list: true },
        }
    }

    /// Ends with the protection domain, or with the system's error.
    pub fn on_pd(context: usize, pd: Result<usize, String>) -> (stage: OpenStage)
        ensures
            stage == stage_on_pd(context, pd),
    {
        match pd {
            Ok(pd) => OpenStage::Opened(IbvDomain { context, pd }),
            Err(os) => OpenStage::Failed {
                error: OpenError::ProtectionDomain(os),
                close: Some(context),
                free_list: true,
            },
        }
    }
}

/// A domain together with the loopback queue pair of its device.
#[derive(Debug, Clone, Copy, PartialEq, Eq, Structural)]
pub struct DomainEntry {
    pub domain: IbvDomain,
    pub qp: Option<RdmaQueuePair>,
}

/// Why a device's domain could not be set up; each with the cause.
#[derive(Debug)]
pub enum DomainError {
    Domain(String),
    LoopbackQp(String),
    QpInfo(String),
    Connect(String),
}

/// How a `DomainError` of a device is written.
pub open spec fn domain_error_text(e: DomainError, device: Seq<char>) -> Seq<char> {
    match e {
        DomainError::Domain(cause) => "could not create domain for device "@ + device + ": "@ + cause@,
        DomainError::LoopbackQp(cause) => "could not create loopback QP for device "@ + device + ": "@ + cause@,
        DomainError::QpInfo(cause) => "could not get QP info for device "@ + device + ": "@ + cause@,
        DomainError::Connect(cause) => "could not connect loopback QP for device "@ + device + ": "@ + cause@,
    }
}

impl DomainError {
    /// The error of that device, written for a reader.
    pub fn text(&self, device: &str) -> (s: String)
        ensures
            s@ == domain_error_text(*self, device@),
    {
        let (mut s, cause): (String, &String) = match self {
            DomainError::Domain(cause) => ("could not create domain for device ".to_owned(), cause),
            DomainError::LoopbackQp(cause) => ("could not create loopback QP for device ".to_owned(), cause),
            DomainError::QpInfo(cause) => ("could not get QP info for device ".to_owned(), cause),
            DomainError::Connect(cause) => ("could not connect loopback QP for device ".to_owned(), cause),
        };
        s.append(device);
        s.append(": ");
        s.append(cause.as_str());
        s
    }
}

/// What is to be done next to set up a device's domain.
pub enum DomainStage {
    /// Open a domain on the device.
    Open,
    /// Create a queue pair in the domain.
    CreateLoopback { domain: IbvDomain },
    /// Ask the queue pair how to connect to it.
    QueryLoopback { domain: IbvDomain, qp: RdmaQueuePair },
    /// Connect the queue pair to itself.
    ConnectLoopback { domain: IbvDomain, qp: RdmaQueuePair, endpoint: IbvQpInfo },
    /// The domain is set up.
    Ready(DomainEntry),
    /// It cannot be set up. Release the domain that is given.
    Failed { error: DomainError, release: Option<IbvDomain> },
}

/// What came of a stage.
pub enum DomainAnswer {
    /// The domain, and whether its queue pairs can be mlx5dv ones.
    Opened { domain: Result<IbvDomain, String>, mlx5dv: bool },
    Created(Result<RdmaQueuePair, String>),
    Info(Result<IbvQpInfo, String>),
    Connected(Result<(), String>),
}

/// The stage that follows; an answer to something else changes nothing.
pub open spec fn next_domain_stage(stage: DomainStage, answer: DomainAnswer) -> DomainStage {
    match (stage, answer) {
        (DomainStage::Open, DomainAnswer::Opened { domain, mlx5dv }) => match domain {
            Ok(domain) => if mlx5dv {
                DomainStage::CreateLoopback { domain }
            } else {
                DomainStage::Ready(DomainEntry { domain, qp: None })
            },
            Err(e) => DomainStage::Failed { error: DomainError::Domain(e), release: None },
        },
        (DomainStage::CreateLoopback { domain }, DomainAnswer::Created(created)) => match created {
            Ok(qp) => DomainStage::QueryLoopback { domain, qp },
            Err(e) => DomainStage::Failed { error: DomainError::LoopbackQp(e), release: Some(domain) },
        },
        (DomainStage::QueryLoopback { domain, qp }, DomainAnswer::Info(info)) => match info {
            Ok(endpoint) => DomainStage::ConnectLoopback { domain, qp, endpoint },
            Err(e) => DomainStage::Failed { error: DomainError::QpInfo(e), release: Some(domain) },
        },
        (DomainStage::ConnectLoopback { domain, qp, .. }, DomainAnswer::Connected(connected)) => match connected {
            Ok(_) => DomainStage::Ready(DomainEntry { domain, qp: Some(qp) }),
            Err(e) => DomainStage::Failed { error: DomainError::Connect(e), release: Some(domain) },
        },
        (stage, _) => stage,
    }
}

impl DomainStage {
    /// The domain that was opened and is neither set up nor released yet.
    pub open spec fn open_domain(self) -> Option<IbvDomain> {
        match self {
            DomainStage::CreateLoopback { domain } => Some(domain),
            DomainStage::QueryLoopback { domain, .. } => Some(domain),
            DomainStage::ConnectLoopback { domain, .. } => Some(domain),
            _ => None,
        }
    }

    /// The stage that follows an answer.
    pub fn next(self, answer: DomainAnswer) -> (stage: DomainStage)
        ensures
            stage == next_domain_stage(self, answer),
    {
        match (self, answer) {
            (DomainStage::Open, DomainAnswer::Opened { domain, mlx5dv }) => match domain {
                Ok(domain) => if mlx5dv {
                    DomainStage::CreateLoopback { domain }
                } else {
                    DomainStage::Ready(DomainEntry { domain, qp: None })
                },
                Err(e) => DomainStage::Failed { error: DomainError::Domain(e), release: None },
            },
            (DomainStage::CreateLoopback { domain }, DomainAnswer::Created(created)) => match created {
                Ok(qp) => DomainStage::QueryLoopback { domain, qp },
                Err(e) => DomainStage::Failed { error: DomainError::LoopbackQp(e), release: Some(domain) },
            },
            (DomainStage::QueryLoopback { domain, qp }, DomainAnswer::Info(info)) => match info {
                Ok(endpoint) => DomainStage::ConnectLoopback { domain, qp, endpoint },
                Err(e) => DomainStage::Failed { error: DomainError::QpInfo(e), release: Some(domain) },
            },
            (DomainStage::ConnectLoopback { domain, qp, .. }, DomainAnswer::Connected(connected)) => match connected {
                Ok(_) => DomainStage::Ready(DomainEntry { domain, qp: Some(qp) }),
                Err(e) => DomainStage::Failed { error: DomainError::Connect(e), release: Some(domain) },
            },
            (stage, _) => stage,
        }
    }
}

/// No domain is lost: a domain that was opened stays the one that is set up,
/// until it is ready or given back for release.
pub proof fn opened_domain_is_kept_or_released(stage: DomainStage, answer: DomainAnswer)
    requires
        stage.open_domain() is Some,
    ensures
        ({
            let next = next_domain_stage(stage, answer);
            ||| next.open_domain() == stage.open_domain()
            ||| next matches DomainStage::Ready(entry) && Some(entry.domain) == stage.open_domain()
            ||| next matches DomainStage::Failed { release, .. } && release == stage.open_domain()
        }),
{
}

/// Each step of setting up a domain comes after the one before it went well, and
/// works on what that one gave: the queue pair is made in the domain that was
/// opened, and is connected to the endpoint that it told of itself.
pub proof fn domain_steps_come_in_order(stage: DomainStage, answer: DomainAnswer)
    ensures
        ({
            let next = next_domain_stage(stage, answer);
            next != stage ==> (match next {
                DomainStage::Open => false,
                DomainStage::CreateLoopback { domain } => stage is Open && answer == (DomainAnswer::Opened {
                    domain: Ok(domain),
                    mlx5dv: true,
                }),
                DomainStage::QueryLoopback { domain, qp } => stage == (DomainStage::CreateLoopback { domain }) && answer
                    == DomainAnswer::Created(Ok(qp)),
                DomainStage::ConnectLoopback { domain, qp, endpoint } => stage == (DomainStage::QueryLoopback {
                    domain,
                    qp,
                }) && answer == DomainAnswer::Info(Ok(endpoint)),
                DomainStage::Ready(entry) => match entry.qp {
                    Some(qp) => (stage matches DomainStage::ConnectLoopback { domain, qp: q, .. } && domain
                        == entry.domain && q == qp) && (answer matches DomainAnswer::Connected(Ok(_))),
                    None => stage is Open && answer == (DomainAnswer::Opened {
                        domain: Ok(entry.domain),
                        mlx5dv: false,
                    }),
                },
                DomainStage::Failed { error, release } => release == stage.open_domain() && match error {
                    DomainError::Domain(cause) => stage is Open && (answer matches DomainAnswer::Opened { domain, .. }
                        && domain == Err::<IbvDomain, String>(cause)),
                    DomainError::LoopbackQp(cause) => stage is CreateLoopback && answer == DomainAnswer::Created(
                        Err(cause),
                    ),
                    DomainError::QpInfo(cause) => stage is QueryLoopback && answer == DomainAnswer::Info(Err(cause)),
                    DomainError::Connect(cause) => stage is ConnectLoopback && answer == DomainAnswer::Connected(
                        Err(cause),
                    ),
                },
            })
        }),
{
}

/// An answer to what a stage asks for ends the stage.
pub proof fn answered_domain_steps_are_left(stage: DomainStage, answer: DomainAnswer)
    ensures
        stage is Open && answer is Opened ==> next_domain_stage(stage, answer) != stage,
        stage is CreateLoopback && answer is Created ==> next_domain_stage(stage, answer) != stage,
        stage is QueryLoopback && answer is Info ==> next_domain_stage(stage, answer) != stage,
        stage is ConnectLoopback && answer is Connected ==> next_domain_stage(stage, answer) != stage,
{
}

/// A name is found at its first place, and wherever it stands.
pub proof fn names_are_found_where_they_stand(names: Seq<Seq<char>>, name: Seq<char>)
    ensures
        name_place(names, name) is Some <==> names.contains(name),
        name_place(names, name) matches Some(i) ==> 0 <= i < names.len() && names[i] == name && forall|j: int|
            0 <= j < i ==> #[trigger] names[j] != name,
    decreases names.len(),
{
    if names.len() > 0 {
        let rest = names.drop_first();
        names_are_found_where_they_stand(rest, name);
        if names[0] == name {
        } else if rest.contains(name) {
            let k = choose|k: int| 0 <= k < rest.len() && rest[k] == name;
            assert(names[k + 1] == name);
            let i = name_place(rest, name)->0;
            assert forall|j: int| 0 <= j < i + 1 implies #[trigger] names[j] != name by {
                if j > 0 {
                    assert(rest[j - 1] != name);
                }
            }
        } else if names.contains(name) {
            let k = choose|k: int| 0 <= k < names.len() && names[k] == name;
            assert(rest[k - 1] == name);
        }
    }
}

/// A domain that is ready or has failed stays so.
pub proof fn settled_domain_stays(stage: DomainStage, answer: DomainAnswer)
    requires
        stage is Ready || stage is Failed,
    ensures
        next_domain_stage(stage, answer) == stage,
{
}

}
