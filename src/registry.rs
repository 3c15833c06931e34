//! The device registry: one record per registered device, addressed by an
//! opaque server-side endpoint that the registry hands out.
use vstd::prelude::*;
use crate::attributes::{Lwm2mBindMode, Lwm2mVersion};
use crate::requests::{Lwm2mObject, Lwm2mRegistrationRequest};

verus! {

pub open spec fn is_alphanumeric(c: char) -> bool {
    ('a' <= c && c <= 'z') || ('A' <= c && c <= 'Z') || ('0' <= c && c <= '9')
}

/// The shape of a server endpoint: 32 ASCII letters and digits.
pub open spec fn is_server_endpoint(s: Seq<char>) -> bool {
    s.len() == 32 && forall|i: int| 0 <= i < s.len() ==> is_alphanumeric(#[trigger] s[i])
}

/// Relies on chrono's `Utc::now` and `timestamp`: the current time in
/// seconds since the Unix epoch. Nothing is known of its value.
#[verifier::external_body]
fn now_seconds() -> (r: i64) {
    chrono::Utc::now().timestamp()
}

/// A registered device.
#[derive(Debug)]
pub struct Device {
    pub device_endpoint: String,
    pub server_endpoint: String,
    /// Seconds.
    pub lifetime: u64,
    /// Seconds since the Unix epoch.
    pub last_seen: i64,
    pub objects: Vec<Lwm2mObject>,
}

impl Device {
    /// Relies on rand's `thread_rng` sampled with `Alphanumeric`, which
    /// draws from `A-Z`, `a-z` and `0-9`: 32 such characters.
    #[verifier::external_body]
    pub fn new_endpoint() -> (r: String)
        ensures
            is_server_endpoint(r@),
    {
        rand::Rng::sample_iter(rand::thread_rng(), rand::distributions::Alphanumeric).take(32).map(
            char::from,
        ).collect()
    }

    /// A device for a registration, seen now, with a fresh server endpoint.
    pub fn new(new_reg: Lwm2mRegistrationRequest) -> (r: Device)
        ensures
            r.device_endpoint == new_reg.endpoint,
            r.lifetime == new_reg.lifetime,
            r.objects == new_reg.objects,
            is_server_endpoint(r.server_endpoint@),
    {
        Device {
            last_seen: now_seconds(),
            device_endpoint: new_reg.endpoint,
            lifetime: new_reg.lifetime,
            server_endpoint: Device::new_endpoint(),
            objects: new_reg.objects,
        }
    }
}

/// What a registration did.
#[derive(Debug)]
pub enum RegisterOutcome {
    /// A new device was added under this server endpoint.
    Registered { server_endpoint: String, lifetime: u64 },
    /// The device was known: its record was refreshed.
    Refreshed { server_endpoint: String, lifetime: u64 },
    /// The offered server endpoint is taken; the request is handed back.
    Collision(Lwm2mRegistrationRequest),
}

/// Devices by server endpoint, held in std's `HashMap<String, Device>`.
#[verifier::external_body]
#[derive(Debug)]
pub struct DeviceTable {
    map: std::collections::HashMap<String, Device>,
}

/// What a device table holds.
pub uninterp spec fn device_table_contents(t: DeviceTable) -> Map<Seq<char>, Device>;

impl DeviceTable {
    /// Relies on `HashMap::new`: an empty map.
    #[verifier::external_body]
    fn new() -> (r: DeviceTable)
        ensures
            device_table_contents(r).dom().len() == 0,
            device_table_contents(r).dom().finite(),
    {
        DeviceTable { map: std::collections::HashMap::new() }
    }

    /// Relies on `HashMap::len`: the number of keys.
    #[verifier::external_body]
    fn len(&self) -> (r: usize)
        ensures
            r == device_table_contents(*self).dom().len(),
    {
        self.map.len()
    }

    /// Relies on `HashMap::get`, with `String` keys compared by their
    /// characters: the device stored under `key`.
    #[verifier::external_body]
    fn get(&self, key: &str) -> (r: Option<&Device>)
        ensures
            match r {
                Some(d) => device_table_contents(*self).contains_key(key@) && *d
                    == device_table_contents(*self)[key@],
                None => !device_table_contents(*self).contains_key(key@),
            },
    {
        self.map.get(key)
    }

    /// Relies on `HashMap::insert`: stores `device` under `key`, replacing
    /// what was there.
    #[verifier::external_body]
    fn insert(&mut self, key: String, device: Device)
        ensures
            device_table_contents(*final(self)) == device_table_contents(*old(self)).insert(
                key@,
                device,
            ),
    {
        self.map.insert(key, device);
    }

    /// Relies on `HashMap::remove`: takes out the device stored under `key`.
    #[verifier::external_body]
    fn remove(&mut self, key: &str) -> (r: Option<Device>)
        ensures
            device_table_contents(*final(self)) == device_table_contents(*old(self)).remove(key@),
            match r {
                Some(d) => device_table_contents(*old(self)).contains_key(key@) && d
                    == device_table_contents(*old(self))[key@],
                None => !device_table_contents(*old(self)).contains_key(key@),
            },
    {
        self.map.remove(key)
    }
}

/// Server endpoints by device endpoint, held in std's
/// `HashMap<String, String>`.
#[verifier::external_body]
#[derive(Debug)]
pub struct EndpointTable {
    map: std::collections::HashMap<String, String>,
}

/// What an endpoint table holds.
pub uninterp spec fn endpoint_table_contents(t: EndpointTable) -> Map<Seq<char>, Seq<char>>;

impl EndpointTable {
    /// Relies on `HashMap::new`: an empty map.
    #[verifier::external_body]
    fn new() -> (r: EndpointTable)
        ensures
            endpoint_table_contents(r).dom().len() == 0,
            endpoint_table_contents(r).dom().finite(),
    {
        EndpointTable { map: std::collections::HashMap::new() }
    }

    /// Relies on `HashMap::get`, with `String` keys compared by their
    /// characters: the value stored under `key`.
    #[verifier::external_body]
    fn get(&self, key: &str) -> (r: Option<&String>)
        ensures
            match r {
                Some(v) => endpoint_table_contents(*self).contains_key(key@) && v@
                    == endpoint_table_contents(*self)[key@],
                None => !endpoint_table_contents(*self).contains_key(key@),
            },
    {
        self.map.get(key)
    }

    /// Relies on `HashMap::insert`: stores `value` under `key`, replacing
    /// what was there.
    #[verifier::external_body]
    fn insert(&mut self, key: String, value: String)
        ensures
            endpoint_table_contents(*final(self)) == endpoint_table_contents(*old(self)).insert(
                key@,
                value@,
            ),
    {
        self.map.insert(key, value);
    }

    /// Relies on `HashMap::remove`: nothing is stored under `key` after.
    #[verifier::external_body]
    fn remove(&mut self, key: &str)
        ensures
            endpoint_table_contents(*final(self)) == endpoint_table_contents(*old(self)).remove(
                key@,
            ),
    {
        self.map.remove(key);
    }
}

/// The live devices by server endpoint. Each device endpoint is registered
/// once.
#[derive(Debug)]
pub struct DeviceRegistry {
    devices: DeviceTable,
    endpoints: EndpointTable,
}

impl View for DeviceRegistry {
    type V = Map<Seq<char>, Device>;

    closed spec fn view(&self) -> Map<Seq<char>, Device> {
        device_table_contents(self.devices)
    }
}

/// Whether some device in `m` has the device endpoint `e`.
pub open spec fn has_device_endpoint(m: Map<Seq<char>, Device>, e: Seq<char>) -> bool {
    exists|s: Seq<char>| #[trigger] m.contains_key(s) && m[s].device_endpoint@ == e
}

impl DeviceRegistry {
    /// Each device is filed under its own server endpoint, and the
    /// endpoint index maps each device endpoint to the one device that has
    /// it.
    pub closed spec fn wf(&self) -> bool {
        let d = device_table_contents(self.devices);
        let e = endpoint_table_contents(self.endpoints);
        &&& d.dom().finite()
        &&& forall|s: Seq<char>|
            #[trigger] d.contains_key(s) ==> d[s].server_endpoint@ == s && e.contains_key(
                d[s].device_endpoint@,
            ) && e[d[s].device_endpoint@] == s
        &&& forall|x: Seq<char>|
            #[trigger] e.contains_key(x) ==> d.contains_key(e[x]) && d[e[x]].device_endpoint@ == x
    }

    proof fn lemma_endpoint_index(&self, x: Seq<char>)
        requires
            self.wf(),
        ensures
            has_device_endpoint(self@, x) == endpoint_table_contents(self.endpoints).contains_key(
                x,
            ),
    {
        let e = endpoint_table_contents(self.endpoints);
        if e.contains_key(x) {
            assert(self@.contains_key(e[x]));
        }
    }

    pub fn new() -> (r: Self)
        ensures
            r.wf(),
            r@ == Map::<Seq<char>, Device>::empty(),
    {
        let r = DeviceRegistry { devices: DeviceTable::new(), endpoints: EndpointTable::new() };
        proof {
            vstd::set_lib::lemma_set_empty_equivalency_len(r@.dom());
            vstd::set_lib::lemma_set_empty_equivalency_len(
                endpoint_table_contents(r.endpoints).dom(),
            );
        }
        assert(r@ =~= Map::<Seq<char>, Device>::empty());
        r
    }

    /// How many devices are registered.
    pub fn len(&self) -> (r: usize)
        ensures
            r == self@.dom().len(),
    {
        self.devices.len()
    }

    /// The device reachable at `server_endpoint`.
    pub fn get(&self, server_endpoint: &str) -> (r: Option<&Device>)
        ensures
            match r {
                Some(d) => self@.contains_key(server_endpoint@) && *d == self@[server_endpoint@],
                None => !self@.contains_key(server_endpoint@),
            },
    {
        self.devices.get(server_endpoint)
    }

    /// Registers a device, offering `server_endpoint` as its address. A
    /// device already known by its endpoint is refreshed instead: seen at
    /// `now`, with the new lifetime and objects, at its old address. A new
    /// device whose offered address is taken is not added.
    pub fn register_with(
        &mut self,
        req: Lwm2mRegistrationRequest,
        server_endpoint: String,
        now: i64,
    ) -> (r: RegisterOutcome)
        requires
            old(self).wf(),
        ensures
            final(self).wf(),
            ({
                let d = old(self)@;
                match r {
                    RegisterOutcome::Refreshed { server_endpoint: s, lifetime } => d.contains_key(
                        s@,
                    ) && d[s@].device_endpoint@ == req.endpoint@ && lifetime == req.lifetime
                        && final(self)@ == d.insert(
                        s@,
                        Device {
                            last_seen: now,
                            lifetime: req.lifetime,
                            objects: req.objects,
                            ..d[s@]
                        },
                    ),
                    RegisterOutcome::Registered { server_endpoint: s, lifetime } => !has_device_endpoint(
                        d,
                        req.endpoint@,
                    ) && !d.contains_key(server_endpoint@) && s == server_endpoint && lifetime
                        == req.lifetime && final(self)@ == d.insert(
                        server_endpoint@,
                        Device {
                            device_endpoint: req.endpoint,
                            server_endpoint,
                            lifetime: req.lifetime,
                            last_seen: now,
                            objects: req.objects,
                        },
                    ),
                    RegisterOutcome::Collision(back) => !has_device_endpoint(d, req.endpoint@)
                        && d.contains_key(server_endpoint@) && back == req && final(self)@ == d,
                }
            }),
    {
        let ghost d = self@;
        let ghost e = endpoint_table_contents(self.endpoints);
        proof {
            self.lemma_endpoint_index(req.endpoint@);
        }
        let known = match self.endpoints.get(req.endpoint.as_str()) {
            Some(s) => Some(s.clone()),
            None => None,
        };
        match known {
            Some(s) => {
                assert(d.contains_key(s@));
                match self.devices.remove(s.as_str()) {
                    Some(old_device) => {
                        let device = Device {
                            last_seen: now,
                            lifetime: req.lifetime,
                            objects: req.objects,
                            ..old_device
                        };
                        self.devices.insert(s.clone(), device);
                        let ghost d2 = self@;
                        assert forall|k: Seq<char>| #[trigger] d2.contains_key(k) implies d2[k].server_endpoint@ == k
                            && e.contains_key(d2[k].device_endpoint@) && e[d2[k].device_endpoint@] == k by {
                            assert(d.contains_key(k));
                        }
                        assert(d2.dom() =~= d.dom());
                        RegisterOutcome::Refreshed { server_endpoint: s, lifetime: req.lifetime }
                    },
                    None => {
                        assert(false);
                        RegisterOutcome::Collision(req)
                    },
                }
            },
            None => {
                if self.devices.get(server_endpoint.as_str()).is_some() {
                    return RegisterOutcome::Collision(req);
                }
                let lifetime = req.lifetime;
                let device = Device {
                    device_endpoint: req.endpoint,
                    server_endpoint,
                    lifetime,
                    last_seen: now,
                    objects: req.objects,
                };
                let key = device.server_endpoint.clone();
                let s = device.server_endpoint.clone();
                let index_key = device.device_endpoint.clone();
                let index_value = device.server_endpoint.clone();
                let ghost dev = device;
                self.devices.insert(key, device);
                self.endpoints.insert(index_key, index_value);
                let ghost d2 = self@;
                let ghost e2 = endpoint_table_contents(self.endpoints);
                assert forall|k: Seq<char>| #[trigger] d2.contains_key(k) implies d2[k].server_endpoint@ == k
                    && e2.contains_key(d2[k].device_endpoint@) && e2[d2[k].device_endpoint@] == k by {
                    if k != dev.server_endpoint@ {
                        assert(d.contains_key(k));
                        assert(d[k].device_endpoint@ != dev.device_endpoint@);
                    }
                }
                assert forall|x: Seq<char>| #[trigger] e2.contains_key(x) implies d2.contains_key(e2[x])
                    && d2[e2[x]].device_endpoint@ == x by {
                    if x != dev.device_endpoint@ {
                        assert(e.contains_key(x));
                        assert(d.contains_key(e[x]));
                    }
                }
                RegisterOutcome::Registered { server_endpoint: s, lifetime }
            },
        }
    }

    /// Registers or refreshes a device, seen now, at a fresh random address
    /// when it is new; returns its address and lifetime for the timer
    /// tracker. A new address is drawn again when it is taken, up to
    /// `ENDPOINT_ATTEMPTS` times; `None` when every one was taken.
    pub fn register(&mut self, req: Lwm2mRegistrationRequest) -> (r: Option<(String, u64)>)
        requires
            old(self).wf(),
        ensures
            final(self).wf(),
            has_device_endpoint(old(self)@, req.endpoint@) ==> r is Some,
            old(self)@.dom().len() == 0 ==> r is Some,
            match r {
                Some(p) => {
                    let d = final(self)@[p.0@];
                    &&& p.1 == req.lifetime
                    &&& final(self)@.contains_key(p.0@)
                    &&& d.server_endpoint@ == p.0@
                    &&& d.device_endpoint@ == req.endpoint@
                    &&& d.lifetime == req.lifetime
                    &&& d.objects == req.objects
                    &&& final(self)@.remove(p.0@) == old(self)@.remove(p.0@)
                    &&& has_device_endpoint(old(self)@, req.endpoint@) ==> old(self)@.contains_key(
                        p.0@,
                    ) && old(self)@[p.0@].device_endpoint@ == req.endpoint@
                    &&& !has_device_endpoint(old(self)@, req.endpoint@) ==> !old(
                        self,
                    )@.contains_key(p.0@)
                },
                None => final(self)@ == old(self)@,
            },
    {
        let now = now_seconds();
        let mut pending = req;
        let mut attempt: u32 = 0;
        while attempt < ENDPOINT_ATTEMPTS
            invariant
                self.wf(),
                self@ == old(self)@,
                pending == req,
                (has_device_endpoint(old(self)@, req.endpoint@) || old(self)@.dom().len() == 0)
                    ==> attempt == 0,
            decreases ENDPOINT_ATTEMPTS - attempt,
        {
            let candidate = Device::new_endpoint();
            let ghost before = self@;
            let ghost offered = candidate@;
            match self.register_with(pending, candidate, now) {
                RegisterOutcome::Registered { server_endpoint, lifetime } => {
                    assert(self@.remove(server_endpoint@) =~= before.remove(server_endpoint@));
                    return Some((server_endpoint, lifetime));
                },
                RegisterOutcome::Refreshed { server_endpoint, lifetime } => {
                    assert(self@.remove(server_endpoint@) =~= before.remove(server_endpoint@));
                    return Some((server_endpoint, lifetime));
                },
                RegisterOutcome::Collision(back) => {
                    proof {
                        vstd::set_lib::lemma_set_empty_equivalency_len(before.dom());
                        assert(before.dom().contains(offered));
                    }
                    pending = back;
                },
            }
            attempt = attempt + 1;
        }
        None
    }

    /// Removes the device at `server_endpoint`, when its registration
    /// expired or was withdrawn.
    pub fn remove(&mut self, server_endpoint: &str) -> (r: Option<Device>)
        requires
            old(self).wf(),
        ensures
            final(self).wf(),
            final(self)@ == old(self)@.remove(server_endpoint@),
            match r {
                Some(dev) => old(self)@.contains_key(server_endpoint@) && dev == old(self)@[server_endpoint@],
                None => !old(self)@.contains_key(server_endpoint@),
            },
    {
        let ghost d = self@;
        let ghost e = endpoint_table_contents(self.endpoints);
        match self.devices.remove(server_endpoint) {
            Some(dev) => {
                self.endpoints.remove(dev.device_endpoint.as_str());
                let ghost d2 = self@;
                let ghost e2 = endpoint_table_contents(self.endpoints);
                assert forall|k: Seq<char>| #[trigger] d2.contains_key(k) implies d2[k].server_endpoint@ == k
                    && e2.contains_key(d2[k].device_endpoint@) && e2[d2[k].device_endpoint@] == k by {
                    assert(d.contains_key(k));
                    assert(e[d[k].device_endpoint@] == k);
                }
                assert forall|x: Seq<char>| #[trigger] e2.contains_key(x) implies d2.contains_key(e2[x])
                    && d2[e2[x]].device_endpoint@ == x by {
                    assert(e.contains_key(x));
                }
                Some(dev)
            },
            None => None,
        }
    }
}

/// How many fresh addresses a new registration is offered.
pub const ENDPOINT_ATTEMPTS: u32 = 16;

/// The state of a registration as the server keeps it.
#[derive(Debug)]
pub struct Registration {
    pub endpoint: String,
    pub lifetime: u64,
    pub version: Lwm2mVersion,
    pub binding_mode: Lwm2mBindMode,
    /// Seconds since the Unix epoch.
    pub last_seen: i64,
}

impl Registration {
    /// The registration a request makes, seen at `last_seen`.
    pub fn new(req: &Lwm2mRegistrationRequest, last_seen: i64) -> (r: Self)
        ensures
            r.endpoint@ == req.endpoint@,
            r.lifetime == req.lifetime,
            r.version == req.version,
            r.binding_mode == req.binding_mode,
            r.last_seen == last_seen,
    {
        Registration {
            endpoint: req.endpoint.clone(),
            lifetime: req.lifetime,
            version: req.version,
            binding_mode: req.binding_mode,
            last_seen,
        }
    }
}

/// The timer of one registration, named by its server endpoint.
#[derive(Debug)]
pub struct RegistrationTimer {
    pub server_endpoint: String,
}

impl RegistrationTimer {
    pub fn new(server_endpoint: String) -> (r: Self)
        ensures
            r.server_endpoint == server_endpoint,
    {
        RegistrationTimer { server_endpoint }
    }
}

} // verus!
