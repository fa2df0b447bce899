//! Nodes, devices and the links between them.

use crate::text::{blank, is_blank};
use vstd::prelude::*;

verus! {

#[derive(Clone, Copy, Debug, Hash, PartialEq, Eq, Structural)]
pub struct NodeId(pub u32);

impl NodeId {
    #[must_use]
    pub fn new(value: u32) -> (r: Self)
        ensures
            r.0 == value,
    {
        NodeId(value)
    }

    #[must_use]
    pub fn get(self) -> (r: u32)
        ensures
            r == self.0,
    {
        self.0
    }
}

/// Name of a compute backend; never blank.
#[derive(Debug, Hash, PartialEq, Eq)]
pub struct BackendId(String);

impl View for BackendId {
    type V = Seq<char>;

    closed spec fn view(&self) -> Seq<char> {
        self.0@
    }
}

impl Clone for BackendId {
    fn clone(&self) -> (r: Self)
        ensures
            r == *self,
    {
        proof {
            use_type_invariant(self);
        }
        BackendId(self.0.clone())
    }
}

impl BackendId {
    #[verifier::type_invariant]
    spec fn named(self) -> bool {
        !blank(self.0@)
    }

    /// # Errors
    /// Returns an error for an empty backend identifier.
    pub fn new(value: &str) -> (r: Result<Self, TopologyError>)
        ensures
            blank(value@) ==> r == Err::<BackendId, TopologyError>(TopologyError::EmptyBackend),
            !blank(value@) ==> r is Ok && r->Ok_0@ == value@,
    {
        if is_blank(value) {
            return Err(TopologyError::EmptyBackend);
        }
        Ok(BackendId(value.to_owned()))
    }

    #[must_use]
    pub fn as_str(&self) -> (r: &str)
        ensures
            r@ == self@,
            !blank(r@),
    {
        proof {
            use_type_invariant(self);
        }
        self.0.as_str()
    }

    /// Whether two identifiers name the same backend.
    #[must_use]
    pub fn same(&self, other: &BackendId) -> (r: bool)
        ensures
            r == (self@ == other@),
    {
        self.0 == other.0
    }
}

#[derive(Debug, Hash, PartialEq, Eq)]
pub struct DeviceId {
    pub node: NodeId,
    pub backend: BackendId,
    pub ordinal: u32,
}

/// Identity of a device: its node, the name of its backend and its ordinal there.
pub struct DeviceIdView {
    pub node: u32,
    pub backend: Seq<char>,
    pub ordinal: u32,
}

impl View for DeviceId {
    type V = DeviceIdView;

    open spec fn view(&self) -> DeviceIdView {
        DeviceIdView { node: self.node.0, backend: self.backend@, ordinal: self.ordinal }
    }
}

impl Clone for DeviceId {
    fn clone(&self) -> (r: Self)
        ensures
            r == *self,
    {
        DeviceId {
            node: self.node,
            backend: self.backend.clone(),
            ordinal: self.ordinal,
        }
    }
}

impl DeviceId {
    #[must_use]
    pub fn new(node: NodeId, backend: BackendId, ordinal: u32) -> (r: Self)
        ensures
            r == (DeviceId { node, backend, ordinal }),
    {
        DeviceId { node, backend, ordinal }
    }

    #[must_use]
    pub fn node(&self) -> (r: NodeId)
        ensures
            r == self.node,
    {
        self.node
    }

    #[must_use]
    pub fn backend(&self) -> (r: &BackendId)
        ensures
            *r == self.backend,
    {
        &self.backend
    }

    #[must_use]
    pub fn ordinal(&self) -> (r: u32)
        ensures
            r == self.ordinal,
    {
        self.ordinal
    }

    /// Whether two identifiers name the same device.
    #[must_use]
    pub fn same(&self, other: &DeviceId) -> (r: bool)
        ensures
            r == (self@ == other@),
    {
        self.node.0 == other.node.0 && self.ordinal == other.ordinal && self.backend.same(
            &other.backend,
        )
    }
}

#[derive(Debug, PartialEq, Eq)]
pub struct ComputeDevice {
    pub id: DeviceId,
    pub memory_bytes: Option<u64>,
}

impl Clone for ComputeDevice {
    fn clone(&self) -> (r: Self)
        ensures
            r == *self,
    {
        ComputeDevice {
            id: self.id.clone(),
            memory_bytes: self.memory_bytes,
        }
    }
}

impl ComputeDevice {
    #[must_use]
    pub fn new(id: DeviceId, memory_bytes: Option<u64>) -> (r: Self)
        ensures
            r == (ComputeDevice { id, memory_bytes }),
    {
        ComputeDevice { id, memory_bytes }
    }

    #[must_use]
    pub fn id(&self) -> (r: &DeviceId)
        ensures
            *r == self.id,
    {
        &self.id
    }

    #[must_use]
    pub fn memory_bytes(&self) -> (r: Option<u64>)
        ensures
            r == self.memory_bytes,
    {
        self.memory_bytes
    }
}

#[derive(Debug, PartialEq, Eq)]
pub struct DeviceLink {
    pub from: DeviceId,
    pub to: DeviceId,
    pub bandwidth_bytes_per_second: Option<u64>,
    pub latency_nanos: Option<u64>,
    pub direct: bool,
}

impl Clone for DeviceLink {
    fn clone(&self) -> (r: Self)
        ensures
            r == *self,
    {
        DeviceLink {
            from: self.from.clone(),
            to: self.to.clone(),
            bandwidth_bytes_per_second: self.bandwidth_bytes_per_second,
            latency_nanos: self.latency_nanos,
            direct: self.direct,
        }
    }
}

impl DeviceLink {
    #[must_use]
    pub fn new(
        from: DeviceId,
        to: DeviceId,
        bandwidth_bytes_per_second: Option<u64>,
        latency_nanos: Option<u64>,
        direct: bool,
    ) -> (r: Self)
        ensures
            r == (DeviceLink { from, to, bandwidth_bytes_per_second, latency_nanos, direct }),
    {
        DeviceLink { from, to, bandwidth_bytes_per_second, latency_nanos, direct }
    }

    #[must_use]
    pub fn from(&self) -> (r: &DeviceId)
        ensures
            *r == self.from,
    {
        &self.from
    }

    #[must_use]
    pub fn to(&self) -> (r: &DeviceId)
        ensures
            *r == self.to,
    {
        &self.to
    }

    #[must_use]
    pub fn bandwidth_bytes_per_second(&self) -> (r: Option<u64>)
        ensures
            r == self.bandwidth_bytes_per_second,
    {
        self.bandwidth_bytes_per_second
    }

    #[must_use]
    pub fn latency_nanos(&self) -> (r: Option<u64>)
        ensures
            r == self.latency_nanos,
    {
        self.latency_nanos
    }

    #[must_use]
    pub fn is_direct(&self) -> (r: bool)
        ensures
            r == self.direct,
    {
        self.direct
    }
}

/// Devices known to a deployment, each once, and links between them.
#[derive(Debug, PartialEq, Eq)]
pub struct ResourceTopology {
    devices: Vec<ComputeDevice>,
    links: Vec<DeviceLink>,
}

/// Whether `device` is one of `devices`.
pub open spec fn knows(devices: Seq<ComputeDevice>, device: DeviceIdView) -> bool {
    exists|i: int| 0 <= i < devices.len() && (#[trigger] devices[i]).id@ == device
}

/// Whether each device occurs once.
pub open spec fn distinct_devices(devices: Seq<ComputeDevice>) -> bool {
    forall|i: int, j: int|
        0 <= i < j < devices.len() ==> (#[trigger] devices[i]).id@ != (#[trigger] devices[j]).id@
}

/// Whether every link joins known devices.
pub open spec fn joined_links(devices: Seq<ComputeDevice>, links: Seq<DeviceLink>) -> bool {
    forall|i: int|
        0 <= i < links.len() ==> knows(devices, (#[trigger] links[i]).from@) && knows(
            devices,
            links[i].to@,
        )
}

fn device_known(devices: &Vec<ComputeDevice>, device: &DeviceId) -> (r: bool)
    ensures
        r == knows(devices@, device@),
{
    let mut index: usize = 0;
    while index < devices.len()
        invariant
            index <= devices.len(),
            forall|i: int| 0 <= i < index ==> (#[trigger] devices@[i]).id@ != device@,
        decreases devices.len() - index,
    {
        if devices[index].id.same(device) {
            return true;
        }
        index += 1;
    }
    false
}

impl Clone for ResourceTopology {
    fn clone(&self) -> (r: Self)
        ensures
            r.spec_devices() == self.spec_devices(),
            r.spec_links() == self.spec_links(),
    {
        proof {
            use_type_invariant(self);
        }
        let devices = self.devices.clone();
        let links = self.links.clone();
        assert(devices@ =~= self.devices@);
        assert(links@ =~= self.links@);
        ResourceTopology { devices, links }
    }
}

impl ResourceTopology {
    /// The devices, in the order in which they were supplied.
    pub closed spec fn spec_devices(&self) -> Seq<ComputeDevice> {
        self.devices@
    }

    /// The links, in the order in which they were supplied.
    pub closed spec fn spec_links(&self) -> Seq<DeviceLink> {
        self.links@
    }

    #[verifier::type_invariant]
    spec fn consistent(self) -> bool {
        distinct_devices(self.devices@) && joined_links(self.devices@, self.links@)
    }

    /// # Errors
    /// Returns an error for duplicate devices or links to unknown devices.
    pub fn new(devices: Vec<ComputeDevice>, links: Vec<DeviceLink>) -> (r: Result<
        Self,
        TopologyError,
    >)
        ensures
            !distinct_devices(devices@) ==> r == Err::<ResourceTopology, TopologyError>(
                TopologyError::DuplicateDevice,
            ),
            distinct_devices(devices@) && !joined_links(devices@, links@) ==> r == Err::<
                ResourceTopology,
                TopologyError,
            >(TopologyError::UnknownLinkEndpoint),
            distinct_devices(devices@) && joined_links(devices@, links@) ==> {
                &&& r is Ok
                &&& r->Ok_0.spec_devices() == devices@
                &&& r->Ok_0.spec_links() == links@
            },
    {
        let mut index: usize = 0;
        while index < devices.len()
            invariant
                index <= devices.len(),
                forall|i: int, j: int|
                    0 <= i < j < index ==> (#[trigger] devices@[i]).id@ != (
                    #[trigger] devices@[j]).id@,
            decreases devices.len() - index,
        {
            let mut earlier: usize = 0;
            while earlier < index
                invariant
                    earlier <= index < devices.len(),
                    forall|i: int|
                        0 <= i < earlier ==> (#[trigger] devices@[i]).id@
                            != devices@[index as int].id@,
                decreases index - earlier,
            {
                if devices[earlier].id.same(&devices[index].id) {
                    return Err(TopologyError::DuplicateDevice);
                }
                earlier += 1;
            }
            index += 1;
        }
        let mut link: usize = 0;
        while link < links.len()
            invariant
                link <= links.len(),
                distinct_devices(devices@),
                forall|i: int|
                    0 <= i < link ==> knows(devices@, (#[trigger] links@[i]).from@) && knows(
                        devices@,
                        links@[i].to@,
                    ),
            decreases links.len() - link,
        {
            if !device_known(&devices, &links[link].from) || !device_known(
                &devices,
                &links[link].to,
            ) {
                return Err(TopologyError::UnknownLinkEndpoint);
            }
            link += 1;
        }
        Ok(ResourceTopology { devices, links })
    }

    #[must_use]
    pub fn devices(&self) -> (r: &[ComputeDevice])
        ensures
            r@ == self.spec_devices(),
            distinct_devices(r@),
    {
        proof {
            use_type_invariant(self);
        }
        self.devices.as_slice()
    }

    #[must_use]
    pub fn links(&self) -> (r: &[DeviceLink])
        ensures
            r@ == self.spec_links(),
            joined_links(self.spec_devices(), r@),
    {
        proof {
            use_type_invariant(self);
        }
        self.links.as_slice()
    }

    #[must_use]
    pub fn contains(&self, device: &DeviceId) -> (r: bool)
        ensures
            r == knows(self.spec_devices(), device@),
    {
        device_known(&self.devices, device)
    }
}

#[derive(Clone, Copy, Debug, PartialEq, Eq, Structural)]
pub enum TopologyError {
    EmptyBackend,
    DuplicateDevice,
    UnknownLinkEndpoint,
}

} // verus!
