//! The client registry: one session per connected client, held in a
//! stable-handle table.  At most one client occupies a car slot and no
//! GUID appears twice among active clients.
use crate::packets::client::CarUpdate;
use crate::packets::client::DamageUpdate;
use crate::packets::common::Vec3f;
use crate::wire::F32;
use vstd::prelude::*;

verus! {

use vstd::set_lib::lemma_len_subset;

/// A stable handle into the client registry.
#[derive(Debug, Clone, Copy, PartialEq, Eq, Hash, Structural)]
pub struct ClientId(pub usize);

/// The mutable per-client state: the motion snapshot, damage, laps,
/// liveness and the push-to-pass counter.
#[derive(Debug, Clone, PartialEq)]
pub struct ClientStatus {
    pub laps: u32,
    pub pos: Vec3f,
    pub rotation: Vec3f,
    pub velocity: Vec3f,
    pub gear: u8,
    pub pak_sequence_id: u8,
    pub time_stamp: u32,
    pub tyre_angular_speed: u8,
    pub tyre_angular_speed1: u8,
    pub tyre_angular_speed2: u8,
    pub tyre_angular_speed3: u8,
    pub steer_angle: u8,
    pub wheel_angle: u8,
    pub engine_rpm: u16,
    pub last_lap_timestamp: u64,
    pub status_bytes: u32,
    pub current_tyre_compound: Vec<u8>,
    pub ballast_kg: F32,
    pub restrictor: F32,
    pub normalized_pos: F32,
    pub damage: F32,
    pub damage1: F32,
    pub damage2: F32,
    pub damage3: F32,
    pub damage4: F32,
    pub performance_delta: i16,
    pub gas: u8,
    pub mandatory_pit: bool,
    pub p2p_count: i16,
    pub last_ping_time: u64,
    pub last_pong_time: u64,
    pub ping: u32,
    pub time_offset: u32,
}

impl ClientStatus {
    /// The tyre compound fits its wire length prefix.
    pub open spec fn wf(&self) -> bool {
        self.current_tyre_compound@.len() <= 255
    }

    /// A fresh status: everything zeroed and the liveness clocks set to
    /// now.
    pub fn new(now_ms: u64) -> (r: ClientStatus)
        ensures
            r.wf(),
            r.laps == 0,
            r.last_ping_time == now_ms,
            r.last_pong_time == now_ms,
            r.last_lap_timestamp == now_ms,
            r.current_tyre_compound@ == Seq::<u8>::empty(),
            r.p2p_count == 0,
    {
        ClientStatus {
            laps: 0,
            pos: Vec3f { x: F32(0), y: F32(0), z: F32(0) },
            rotation: Vec3f { x: F32(0), y: F32(0), z: F32(0) },
            velocity: Vec3f { x: F32(0), y: F32(0), z: F32(0) },
            gear: 0,
            pak_sequence_id: 0,
            time_stamp: 0,
            tyre_angular_speed: 0,
            tyre_angular_speed1: 0,
            tyre_angular_speed2: 0,
            tyre_angular_speed3: 0,
            steer_angle: 0,
            wheel_angle: 0,
            engine_rpm: 0,
            last_lap_timestamp: now_ms,
            status_bytes: 0,
            current_tyre_compound: Vec::new(),
            ballast_kg: F32(0),
            restrictor: F32(0),
            normalized_pos: F32(0),
            damage: F32(0),
            damage1: F32(0),
            damage2: F32(0),
            damage3: F32(0),
            damage4: F32(0),
            performance_delta: 0,
            gas: 0,
            mandatory_pit: false,
            p2p_count: 0,
            last_ping_time: now_ms,
            last_pong_time: now_ms,
            ping: 0,
            time_offset: 0,
        }
    }

    /// The status after a motion snapshot overwrote it.
    pub open spec fn spec_updated(self, u: CarUpdate) -> ClientStatus {
        ClientStatus {
            pos: u.pos,
            rotation: u.rotation,
            velocity: u.velocity,
            gear: u.gear,
            pak_sequence_id: u.pak_sequence_id,
            time_stamp: u.timestamp,
            tyre_angular_speed: u.tyre_angular_speed,
            tyre_angular_speed1: u.tyre_angular_speed1,
            tyre_angular_speed2: u.tyre_angular_speed2,
            tyre_angular_speed3: u.tyre_angular_speed3,
            steer_angle: u.steer_angle,
            wheel_angle: u.wheel_angle,
            engine_rpm: u.engine_rpm,
            status_bytes: u.status,
            normalized_pos: u.normalized_pos,
            performance_delta: u.performance_delta,
            gas: u.gas,
            ..self
        }
    }

    /// Overwrites the motion snapshot with the client's update.
    pub fn update(&mut self, u: &CarUpdate)
        ensures
            *final(self) == old(self).spec_updated(*u),
    {
        self.pos = u.pos;
        self.rotation = u.rotation;
        self.velocity = u.velocity;
        self.gear = u.gear;
        self.pak_sequence_id = u.pak_sequence_id;
        self.time_stamp = u.timestamp;
        self.tyre_angular_speed = u.tyre_angular_speed;
        self.tyre_angular_speed1 = u.tyre_angular_speed1;
        self.tyre_angular_speed2 = u.tyre_angular_speed2;
        self.tyre_angular_speed3 = u.tyre_angular_speed3;
        self.steer_angle = u.steer_angle;
        self.wheel_angle = u.wheel_angle;
        self.engine_rpm = u.engine_rpm;
        self.status_bytes = u.status;
        self.normalized_pos = u.normalized_pos;
        self.performance_delta = u.performance_delta;
        self.gas = u.gas;
    }
}

/// One connected client's session.
#[derive(Debug, Clone, PartialEq)]
pub struct Client {
    pub car_id: usize,
    pub guid: Vec<u8>,
    pub ip: u128,
    pub udp: Option<(u128, u16)>,
    pub has_valid_checksum: bool,
    pub has_sent_first_update: bool,
    pub booked_as_admin: bool,
    pub status: ClientStatus,
}

impl Client {
    pub open spec fn wf(&self) -> bool {
        &&& self.guid@.len() <= 255
        &&& self.status.wf()
    }

    /// A fresh session for a slot just reserved in the handshake.
    pub fn new(car_id: usize, guid: Vec<u8>, ip: u128, booked_as_admin: bool, now_ms: u64) -> (r:
        Client)
        requires
            guid@.len() <= 255,
        ensures
            r.wf(),
            r.car_id == car_id,
            r.guid@ == guid@,
            r.ip == ip,
            r.udp is None,
            !r.has_sent_first_update,
            r.booked_as_admin == booked_as_admin,
            r.status.wf(),
            r.status.laps == 0,
            r.status.p2p_count == 0,
            r.status.last_ping_time == now_ms,
            r.status.last_pong_time == now_ms,
            r.status.last_lap_timestamp == now_ms,
            r.status.current_tyre_compound@ == Seq::<u8>::empty(),
    {
        Client {
            car_id,
            guid,
            ip,
            udp: None,
            has_valid_checksum: false,
            has_sent_first_update: false,
            booked_as_admin,
            status: ClientStatus::new(now_ms),
        }
    }

    /// Overwrites the five damage-zone values.
    pub fn update_damage(&mut self, d: &DamageUpdate)
        ensures
            *final(self) == (Client {
                status: ClientStatus {
                    damage: d.damage,
                    damage1: d.damage1,
                    damage2: d.damage2,
                    damage3: d.damage3,
                    damage4: d.damage4,
                    ..old(self).status
                },
                ..*old(self)
            }),
    {
        self.status.damage = d.damage;
        self.status.damage1 = d.damage1;
        self.status.damage2 = d.damage2;
        self.status.damage3 = d.damage3;
        self.status.damage4 = d.damage4;
    }

    /// Counts one completed lap, stopping at the counter's limit.
    pub fn add_lap(&mut self)
        ensures
            *final(self) == (Client {
                status: ClientStatus {
                    laps: (if old(self).status.laps < 0xFFFFFFFFu32 {
                        (old(self).status.laps + 1) as u32
                    } else {
                        old(self).status.laps
                    }),
                    ..old(self).status
                },
                ..*old(self)
            }),
    {
        if self.status.laps < 0xFFFFFFFF {
            self.status.laps = self.status.laps + 1;
        }
    }

    /// Binds the datagram return address.
    pub fn set_udp(&mut self, ip: u128, port: u16)
        ensures
            *final(self) == (Client { udp: Some((ip, port)), ..*old(self) }),
    {
        self.udp = Some((ip, port));
    }

    /// Spends one push-to-pass charge, stopping at the counter's floor.
    pub fn p2p_count_dec(&mut self)
        ensures
            *final(self) == (Client {
                status: ClientStatus {
                    p2p_count: (if old(self).status.p2p_count > -32768 {
                        (old(self).status.p2p_count - 1) as i16
                    } else {
                        old(self).status.p2p_count
                    }),
                    ..old(self).status
                },
                ..*old(self)
            }),
    {
        if self.status.p2p_count > -32768 {
            self.status.p2p_count = self.status.p2p_count - 1;
        }
    }
}

/// The number of occupied registry slots among the first `n`.
pub open spec fn count_active(slots: Seq<Option<Client>>, n: int) -> int
    decreases n,
{
    if n <= 0 {
        0
    } else {
        count_active(slots, n - 1) + (if slots[n - 1] is Some {
            1int
        } else {
            0int
        })
    }
}

/// The set of car slots held by active clients among the first `n`.
pub open spec fn car_ids_of(slots: Seq<Option<Client>>, n: int) -> Set<int>
    decreases n,
{
    if n <= 0 {
        Set::empty()
    } else {
        match slots[n - 1] {
            Some(c) => car_ids_of(slots, n - 1).insert(c.car_id as int),
            None => car_ids_of(slots, n - 1),
        }
    }
}

/// The first slot among the first `n` whose client has the given
/// source address.
pub open spec fn spec_first_ip_match(slots: Seq<Option<Client>>, ip: u128, n: int) -> Option<int>
    decreases n,
{
    if n <= 0 {
        None
    } else {
        match spec_first_ip_match(slots, ip, n - 1) {
            Some(k) => Some(k),
            None => match slots[n - 1] {
                Some(c) => if c.ip == ip {
                    Some(n - 1)
                } else {
                    None
                },
                None => None,
            },
        }
    }
}

/// When the first `i` slots hold no client at the address and slot `i`
/// does, the first match over any longer prefix is slot `i`.
pub proof fn lemma_first_ip_match_step(slots: Seq<Option<Client>>, ip: u128, i: int, n: int)
    requires
        0 <= i < n <= slots.len(),
        spec_first_ip_match(slots, ip, i) is None,
        slots[i] matches Some(c) && c.ip == ip,
    ensures
        spec_first_ip_match(slots, ip, n) == Some(i),
    decreases n,
{
    if n > i + 1 {
        lemma_first_ip_match_step(slots, ip, i, n - 1);
    }
}

/// Stores all connected clients under stable handles.
#[derive(Debug, Clone, PartialEq)]
pub struct Clients {
    pub slots: Vec<Option<Client>>,
}

impl Clients {
    /// The client at an occupied slot, or `None`.
    pub open spec fn spec_slots(&self) -> Seq<Option<Client>> {
        self.slots@
    }

    /// The number of active clients.
    pub open spec fn spec_num_clients(&self) -> int {
        count_active(self.slots@, self.slots@.len() as int)
    }

    /// Every client is well formed, occupies a car slot below the table
    /// size, and no two active clients share a car slot or a GUID.
    pub open spec fn wf(&self, ncars: int) -> bool {
        &&& forall|i: int|
            0 <= i < self.slots@.len() ==> (match #[trigger] self.slots@[i] {
                Some(c) => c.wf() && c.car_id < ncars,
                None => true,
            })
        &&& forall|i: int, j: int|
            0 <= i < j < self.slots@.len() ==> (match (#[trigger] self.slots@[i], #[trigger] self.slots@[j]) {
                (Some(a), Some(b)) => a.car_id != b.car_id && a.guid@ != b.guid@,
                _ => true,
            })
    }

    /// An empty registry.
    pub fn new() -> (r: Clients)
        ensures
            r.spec_slots() == Seq::<Option<Client>>::empty(),
            forall|n: int| r.wf(n),
    {
        Clients { slots: Vec::new() }
    }

    pub fn slot_count(&self) -> (r: usize)
        ensures
            r == self.spec_slots().len(),
    {
        self.slots.len()
    }

    /// The client under the given handle.
    pub fn get(&self, id: ClientId) -> (r: Option<&Client>)
        ensures
            (match r {
                Some(c) => id.0 < self.spec_slots().len() && self.spec_slots()[id.0 as int]
                    == Some(*c),
                None => id.0 >= self.spec_slots().len() || self.spec_slots()[id.0 as int] is None,
            }),
    {
        if id.0 < self.slots.len() {
            match &self.slots[id.0] {
                Some(c) => Some(c),
                None => None,
            }
        } else {
            None
        }
    }

    /// Removes and returns the client under the handle; absent handles
    /// change nothing.
    pub fn remove(&mut self, id: ClientId) -> (r: Option<Client>)
        ensures
            (match r {
                Some(c) => {
                    &&& id.0 < old(self).spec_slots().len()
                    &&& old(self).spec_slots()[id.0 as int] == Some(c)
                    &&& final(self).spec_slots() == old(self).spec_slots().update(
                        id.0 as int,
                        Option::<Client>::None,
                    )
                },
                None => {
                    &&& (id.0 >= old(self).spec_slots().len() || old(self).spec_slots()[id.0 as int]
                        is None)
                    &&& *final(self) == *old(self)
                },
            }),
    {
        if id.0 < self.slots.len() {
            if self.slots[id.0].is_some() {
                let taken = self.slots[id.0].take();
                match taken {
                    Some(c) => {
                        assert(self.slots@ =~= old(self).slots@.update(
                            id.0 as int,
                            Option::<Client>::None,
                        ));
                        Some(c)
                    },
                    None => None,
                }
            } else {
                None
            }
        } else {
            None
        }
    }

    /// Inserts a client at the first vacant slot, or appends one.
    pub fn insert(&mut self, client: Client) -> (r: ClientId)
        ensures
            r.0 <= old(self).spec_slots().len(),
            (if r.0 < old(self).spec_slots().len() {
                old(self).spec_slots()[r.0 as int] is None && final(self).spec_slots() == old(
                    self,
                ).spec_slots().update(r.0 as int, Some(client))
            } else {
                final(self).spec_slots() == old(self).spec_slots().push(Some(client))
            }),
    {
        let ghost client0 = client;
        let n = self.slots.len();
        let mut i: usize = 0;
        while i < n
            invariant
                i <= n == self.slots@.len(),
                self == old(self),
                client0 == client,
                forall|j: int| 0 <= j < i ==> (#[trigger] self.slots@[j]) is Some,
            decreases n - i,
        {
            if self.slots[i].is_none() {
                let v = Some(client);
                let ghost v0 = v;
                self.slots[i] = v;
                proof {
                    assert(v0 == Some(client0));
                    assert(self.slots@ =~= old(self).slots@.update(i as int, v0));
                }
                return ClientId(i);
            }
            i = i + 1;
        }
        self.slots.push(Some(client));
        ClientId(n)
    }

    /// The first active client with the given source address, if any.
    pub fn get_from_ip(&self, ip: u128) -> (r: Option<(ClientId, &Client)>)
        ensures
            (match r {
                Some((id, c)) => {
                    &&& id.0 < self.spec_slots().len()
                    &&& self.spec_slots()[id.0 as int] == Some(*c)
                    &&& c.ip == ip
                    &&& spec_first_ip_match(self.spec_slots(), ip, self.spec_slots().len() as int)
                        == Some(id.0 as int)
                },
                None => spec_first_ip_match(
                    self.spec_slots(),
                    ip,
                    self.spec_slots().len() as int,
                ) is None,
            }),
    {
        let n = self.slots.len();
        let mut i: usize = 0;
        while i < n
            invariant
                i <= n == self.slots@.len(),
                spec_first_ip_match(self.slots@, ip, i as int) is None,
            decreases n - i,
        {
            match &self.slots[i] {
                Some(c) => {
                    if c.ip == ip {
                        proof {
                            lemma_first_ip_match_step(self.slots@, ip, i as int, n as int);
                        }
                        return Some((ClientId(i), c));
                    }
                },
                None => {},
            }
            i = i + 1;
        }
        None
    }
}

/// The number of active clients never exceeds the number of car slots:
/// each active client holds a distinct car slot below the table size.
pub proof fn lemma_clients_bounded(clients: Clients, ncars: int)
    requires
        clients.wf(ncars),
        0 <= ncars,
    ensures
        clients.spec_num_clients() <= ncars,
{
    let slots = clients.slots@;
    let n = slots.len() as int;
    lemma_car_ids_count(slots, n, ncars);
    let ids = car_ids_of(slots, n);
    vstd::set_lib::lemma_int_range(0, ncars);
    assert(Set::new(|x: int| 0 <= x < ncars) =~= vstd::set_lib::set_int_range(0, ncars));
    lemma_len_subset(ids, vstd::set_lib::set_int_range(0, ncars));
}

/// Among the first `n` slots of a well-formed registry, the active car
/// ids form a finite set with one member per active client, all below
/// the table size.
proof fn lemma_car_ids_count(slots: Seq<Option<Client>>, n: int, ncars: int)
    requires
        0 <= n <= slots.len(),
        forall|i: int|
            0 <= i < slots.len() ==> (match #[trigger] slots[i] {
                Some(c) => c.car_id < ncars,
                None => true,
            }),
        forall|i: int, j: int|
            0 <= i < j < slots.len() ==> (match (#[trigger] slots[i], #[trigger] slots[j]) {
                (Some(a), Some(b)) => a.car_id != b.car_id,
                _ => true,
            }),
    ensures
        car_ids_of(slots, n).finite(),
        car_ids_of(slots, n).len() == count_active(slots, n),
        car_ids_of(slots, n).subset_of(Set::new(|x: int| 0 <= x < ncars)),
        forall|i: int|
            n <= i < slots.len() ==> (match #[trigger] slots[i] {
                Some(c) => !car_ids_of(slots, n).contains(c.car_id as int),
                None => true,
            }),
    decreases n,
{
    if n > 0 {
        lemma_car_ids_count(slots, n - 1, ncars);
        match slots[n - 1] {
            Some(c) => {
                assert(!car_ids_of(slots, n - 1).contains(c.car_id as int));
            },
            None => {},
        }
    }
}

} // verus!
