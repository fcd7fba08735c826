//! The car slot table: one fixed entry per configured car, each holding
//! at most one driver.  A slot's index is its stable wire identifier.
use crate::packets::server::Car as PacketCar;
use crate::packets::server::CarIdentity;
use crate::packets::server::CarList;
use crate::wire::F32;
use vstd::prelude::*;

verus! {

/// Refusal: no free slot offers the requested car model.
#[derive(Debug, Clone, Copy, PartialEq, Eq, Structural)]
pub struct NoSlotsForCar;

/// A stable car slot index.
#[derive(Debug, Clone, Copy, PartialEq, Eq, Structural)]
pub struct CarId(pub usize);

/// The driver occupying a car slot.
#[derive(Debug, Clone, PartialEq)]
pub struct Driver {
    pub name: Vec<u8>,
    pub team: Vec<u8>,
    pub nation: Vec<u8>,
    pub guid: Vec<u8>,
}

impl Driver {
    /// All names fit a one-byte wire length.
    pub open spec fn wf(&self) -> bool {
        &&& self.name@.len() <= 255
        &&& self.team@.len() <= 255
        &&& self.nation@.len() <= 255
        &&& self.guid@.len() <= 255
    }
}

/// One configured car slot.
#[derive(Debug, Clone, PartialEq)]
pub struct Car {
    pub driver: Option<Driver>,
    pub model: Vec<u8>,
    pub skin: Vec<u8>,
    pub session_id: usize,
    pub damage: F32,
    pub damage1: F32,
    pub damage2: F32,
    pub damage3: F32,
    pub damage4: F32,
}

impl Car {
    pub open spec fn wf(&self) -> bool {
        &&& self.model@.len() <= 255
        &&& self.skin@.len() <= 255
        &&& (match self.driver {
            Some(d) => d.wf(),
            None => true,
        })
    }
}

/// A slot whose model matches the request and which has no driver.
pub open spec fn matches_free(c: Car, req: Seq<u8>) -> bool {
    c.model@ == req && c.driver is None
}

/// The number of occupied slots among the first `n`.
pub open spec fn count_occupied(cars: Seq<Car>, n: int) -> int
    decreases n,
{
    if n <= 0 {
        0
    } else {
        count_occupied(cars, n - 1) + (if cars[n - 1].driver is Some {
            1int
        } else {
            0int
        })
    }
}

/// At most `n` of the first `n` slots are occupied.
pub proof fn lemma_count_occupied_bound(cars: Seq<Car>, n: int)
    requires
        0 <= n,
    ensures
        0 <= count_occupied(cars, n) <= n,
    decreases n,
{
    if n > 0 {
        lemma_count_occupied_bound(cars, n - 1);
    }
}

/// The car slot table, created at startup and never resized.
#[derive(Debug, Clone, PartialEq)]
pub struct Cars {
    pub cars: Vec<Car>,
}

impl Cars {
    /// Every slot is well formed, numbered by its index, and the table
    /// fits the wire's one-byte car ids.
    pub open spec fn wf(&self) -> bool {
        &&& self.cars@.len() <= 255
        &&& forall|i: int|
            0 <= i < self.cars@.len() ==> (#[trigger] self.cars@[i]).wf() && self.cars@[i].session_id
                == i
    }

    pub open spec fn spec_cars(&self) -> Seq<Car> {
        self.cars@
    }

    /// Builds the table from the configured model and skin of each car.
    pub fn new(entries: Vec<(Vec<u8>, Vec<u8>)>) -> (r: Cars)
        requires
            entries@.len() <= 255,
            forall|i: int|
                0 <= i < entries@.len() ==> ((#[trigger] entries@[i]).0@.len() <= 255
                    && entries@[i].1@.len() <= 255),
        ensures
            r.wf(),
            r.spec_cars().len() == entries@.len(),
            forall|i: int|
                0 <= i < entries@.len() ==> ((#[trigger] r.spec_cars()[i]).driver is None
                    && r.spec_cars()[i].model@ == entries@[i].0@ && r.spec_cars()[i].skin@
                    == entries@[i].1@),
    {
        let mut cars: Vec<Car> = Vec::new();
        let mut i: usize = 0;
        let n = entries.len();
        while i < n
            invariant
                i <= n == entries@.len() <= 255,
                cars@.len() == i,
                forall|j: int|
                    0 <= j < entries@.len() ==> ((#[trigger] entries@[j]).0@.len() <= 255
                        && entries@[j].1@.len() <= 255),
                forall|j: int|
                    0 <= j < i ==> ((#[trigger] cars@[j]).driver is None && cars@[j].model@
                        == entries@[j].0@ && cars@[j].skin@ == entries@[j].1@ && cars@[j].wf()
                        && cars@[j].session_id == j),
            decreases n - i,
        {
            let e = &entries[i];
            cars.push(
                Car {
                    driver: None,
                    model: clone_bytes(&e.0),
                    skin: clone_bytes(&e.1),
                    session_id: i,
                    damage: F32(0),
                    damage1: F32(0),
                    damage2: F32(0),
                    damage3: F32(0),
                    damage4: F32(0),
                },
            );
            i = i + 1;
        }
        Cars { cars }
    }

    /// Reserves the first free slot whose model matches, putting the
    /// driver in it.  Fails, changing nothing, exactly when no free slot
    /// offers the model.
    pub fn try_add_car(&mut self, req: &Vec<u8>, driver: Driver) -> (r: Result<
        usize,
        NoSlotsForCar,
    >)
        requires
            old(self).wf(),
            driver.wf(),
        ensures
            final(self).wf(),
            final(self).spec_cars().len() == old(self).spec_cars().len(),
            (match r {
                Ok(i) => {
                    &&& 0 <= i < old(self).spec_cars().len()
                    &&& matches_free(old(self).spec_cars()[i as int], req@)
                    &&& (forall|j: int|
                        0 <= j < i ==> !matches_free(#[trigger] old(self).spec_cars()[j], req@))
                    &&& final(self).spec_cars() == old(self).spec_cars().update(
                        i as int,
                        Car { driver: Some(driver), ..old(self).spec_cars()[i as int] },
                    )
                },
                Err(_) => {
                    &&& (forall|j: int|
                        0 <= j < old(self).spec_cars().len() ==> !matches_free(
                            #[trigger] old(self).spec_cars()[j],
                            req@,
                        ))
                    &&& *final(self) == *old(self)
                },
            }),
    {
        let ghost driver0 = driver;
        let n = self.cars.len();
        let mut i: usize = 0;
        while i < n
            invariant
                i <= n == self.cars@.len(),
                self == old(self),
                old(self).wf(),
                driver0.wf(),
                driver0 == driver,
                forall|j: int| 0 <= j < i ==> !matches_free(#[trigger] self.cars@[j], req@),
            decreases n - i,
        {
            if self.cars[i].model == *req && self.cars[i].driver.is_none() {
                self.cars[i].driver = Some(driver);
                proof {
                    assert(old(self).cars@[i as int].model@ =~= req@);
                    assert(self.cars@ =~= old(self).cars@.update(
                        i as int,
                        Car { driver: Some(driver0), ..old(self).cars@[i as int] },
                    ));
                    assert forall|j: int| 0 <= j < self.cars@.len() implies (
                    #[trigger] self.cars@[j]).wf() && self.cars@[j].session_id == j by {
                        assert(old(self).cars@[j].wf());
                        assert(old(self).cars@[j].session_id == j);
                        if j == i as int {
                            assert(self.cars@[j].driver == Some(driver0));
                            assert(driver0.wf());
                            assert(self.cars@[j].model@ == old(self).cars@[j].model@);
                        } else {
                            assert(self.cars@[j] == old(self).cars@[j]);
                        }
                    }
                }
                return Ok(i);
            }
            i = i + 1;
        }
        Err(NoSlotsForCar)
    }

    /// Clears the driver of the given slot; out-of-range ids change
    /// nothing.
    pub fn remove_car(&mut self, id: usize)
        requires
            old(self).wf(),
        ensures
            final(self).wf(),
            (if id < old(self).spec_cars().len() {
                final(self).spec_cars() == old(self).spec_cars().update(
                    id as int,
                    Car { driver: None, ..old(self).spec_cars()[id as int] },
                )
            } else {
                *final(self) == *old(self)
            }),
    {
        if id < self.cars.len() {
            self.cars[id].driver = None;
            assert(self.cars@ =~= old(self).cars@.update(
                id as int,
                Car { driver: None, ..old(self).cars@[id as int] },
            ));
            assert forall|j: int| 0 <= j < self.cars@.len() implies (#[trigger] self.cars@[j]).wf()
                && self.cars@[j].session_id == j by {
                assert(old(self).cars@[j].wf());
                assert(old(self).cars@[j].session_id == j);
            }
        }
    }

    /// The number of occupied slots.
    pub fn num_of_clients(&self) -> (r: u16)
        requires
            self.wf(),
        ensures
            r == count_occupied(self.spec_cars(), self.spec_cars().len() as int),
            r <= self.spec_cars().len(),
    {
        let n = self.cars.len();
        let mut count: usize = 0;
        let mut i: usize = 0;
        proof {
            lemma_count_occupied_bound(self.cars@, n as int);
        }
        while i < n
            invariant
                i <= n == self.cars@.len() <= 255,
                count == count_occupied(self.cars@, i as int),
                count <= i,
            decreases n - i,
        {
            if self.cars[i].driver.is_some() {
                count = count + 1;
            }
            i = i + 1;
        }
        count as u16
    }

    /// The model of every configured car, in slot order.
    pub fn models(&self) -> (r: Vec<Vec<u8>>)
        ensures
            r@.len() == self.spec_cars().len(),
            forall|i: int| 0 <= i < r@.len() ==> r@[i]@ == (#[trigger] self.spec_cars()[i]).model@,
    {
        let mut out: Vec<Vec<u8>> = Vec::new();
        let mut i: usize = 0;
        while i < self.cars.len()
            invariant
                i <= self.cars@.len(),
                out@.len() == i,
                forall|j: int| 0 <= j < i ==> out@[j]@ == (#[trigger] self.cars@[j]).model@,
            decreases self.cars@.len() - i,
        {
            out.push(clone_bytes(&self.cars[i].model));
            i = i + 1;
        }
        out
    }

    /// The number of configured slots, which is the client capacity.
    pub fn max_clients(&self) -> (r: u16)
        requires
            self.wf(),
        ensures
            r == self.spec_cars().len(),
    {
        self.cars.len() as u16
    }

    /// One car-list row for the given slot.
    pub open spec fn spec_car_row(c: Car, i: int) -> crate::packets::server::CarView {
        crate::packets::server::CarView {
            index: i as u8,
            identity: crate::packets::server::CarIdentityView {
                car_model: c.model@,
                car_skin: c.skin@,
                driver_name: (match c.driver {
                    Some(d) => d.name@,
                    None => Seq::empty(),
                }),
                driver_team: (match c.driver {
                    Some(d) => d.team@,
                    None => Seq::empty(),
                }),
                driver_nation: (match c.driver {
                    Some(d) => d.nation@,
                    None => Seq::empty(),
                }),
            },
            is_spectator: false,
            damage: c.damage,
            damage1: c.damage1,
            damage2: c.damage2,
            damage3: c.damage3,
            damage4: c.damage4,
        }
    }

    /// The car list from the given slot index onward, as the wire
    /// carries it.
    pub fn to_packet(&self, from_session_id: u8) -> (r: CarList)
        requires
            self.wf(),
        ensures
            r.from_session_id == from_session_id,
            r.cars@.len() == (if from_session_id as int <= self.spec_cars().len() {
                self.spec_cars().len() - from_session_id as int
            } else {
                0int
            }),
            forall|k: int|
                0 <= k < r.cars@.len() ==> (#[trigger] r.cars@[k])@ == Self::spec_car_row(
                    self.spec_cars()[from_session_id as int + k],
                    from_session_id as int + k,
                ),
    {
        let mut rows: Vec<PacketCar> = Vec::new();
        let mut i: usize = from_session_id as usize;
        while i < self.cars.len()
            invariant
                from_session_id as int <= i as int,
                i as int <= self.cars@.len() || i == from_session_id as usize,
                self.wf(),
                rows@.len() == (if from_session_id as int <= i as int && from_session_id as int
                    <= self.cars@.len() && i as int <= self.cars@.len() {
                    i as int - from_session_id as int
                } else {
                    0int
                }),
                forall|k: int|
                    0 <= k < rows@.len() ==> (#[trigger] rows@[k])@ == Self::spec_car_row(
                        self.cars@[from_session_id as int + k],
                        from_session_id as int + k,
                    ),
            decreases self.cars@.len() - i,
        {
            let c = &self.cars[i];
            let row = PacketCar {
                index: i as u8,
                identity: CarIdentity {
                    car_model: crate::strings::ByteString(clone_bytes(&c.model)),
                    car_skin: crate::strings::ByteString(clone_bytes(&c.skin)),
                    driver_name: crate::strings::ByteString(
                        match &c.driver {
                            Some(d) => clone_bytes(&d.name),
                            None => Vec::new(),
                        },
                    ),
                    driver_team: crate::strings::ByteString(
                        match &c.driver {
                            Some(d) => clone_bytes(&d.team),
                            None => Vec::new(),
                        },
                    ),
                    driver_nation: crate::strings::ByteString(
                        match &c.driver {
                            Some(d) => clone_bytes(&d.nation),
                            None => Vec::new(),
                        },
                    ),
                },
                is_spectator: false,
                damage: c.damage,
                damage1: c.damage1,
                damage2: c.damage2,
                damage3: c.damage3,
                damage4: c.damage4,
            };
            rows.push(row);
            i = i + 1;
        }
        CarList { from_session_id, cars: rows }
    }
}

/// Copies a vector of position rows.
pub fn clone_bytes_positions(v: &Vec<crate::packets::server::PositionUpdate>) -> (r: Vec<
    crate::packets::server::PositionUpdate,
>)
    ensures
        r@ == v@,
{
    let mut out: Vec<crate::packets::server::PositionUpdate> = Vec::new();
    let mut i: usize = 0;
    while i < v.len()
        invariant
            i <= v@.len(),
            out@ == v@.take(i as int),
        decreases v@.len() - i,
    {
        out.push(v[i]);
        assert(out@ =~= v@.take(i as int + 1));
        i = i + 1;
    }
    assert(v@.take(v@.len() as int) =~= v@);
    out
}

/// Copies a byte string.
pub fn clone_bytes(v: &Vec<u8>) -> (r: Vec<u8>)
    ensures
        r@ == v@,
{
    let mut out: Vec<u8> = Vec::new();
    let mut i: usize = 0;
    while i < v.len()
        invariant
            i <= v@.len(),
            out@ == v@.take(i as int),
        decreases v@.len() - i,
    {
        out.push(v[i]);
        assert(out@ =~= v@.take(i as int + 1));
        i = i + 1;
    }
    assert(v@.take(v@.len() as int) =~= v@);
    out
}

} // verus!
