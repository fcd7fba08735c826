//! Packets sent by the server: the welcome frame, broadcast state and
//! session control, together with the catalogue enum that dispatches them
//! by their packet-id byte.
use crate::packets::common::OnOffFactoryOption;
use crate::packets::common::SessionType;
use crate::packets::common::Vec3f;
use crate::strings::BigWideString;
use crate::strings::ByteString;
use crate::strings::WideString;
use crate::vecs::dec_items;
use crate::vecs::dec_u8_vec;
use crate::vecs::enc_items;
use crate::vecs::enc_u8_vec;
use crate::vecs::lemma_dec_items_complete;
use crate::vecs::lemma_dec_items_sound;
use crate::vecs::lemma_dec_u8_vec_complete;
use crate::vecs::lemma_dec_u8_vec_sound;
use crate::vecs::lemma_enc_items_len_fixed;
use crate::vecs::read_items;
use crate::vecs::read_u8_vec;
use crate::vecs::views_of;
use crate::vecs::wf_u8_vec;
use crate::vecs::write_items;
use crate::vecs::write_u8_vec;
use crate::wire::lemma_skip_concat;
use crate::wire::lemma_skip_skip;
use crate::wire::Error;
use crate::wire::Readable;
use crate::wire::Writeable;
use crate::wire::F32;
use vstd::prelude::*;

verus! {


/// One session descriptor inside the welcome frame.
#[derive(Debug, Clone, Copy, PartialEq, Eq, Structural)]
pub struct SessionU {
    pub session_type: SessionType,
    pub laps: u16,
    pub time: u16,
}

impl View for SessionU {
    type V = SessionU;

    open spec fn view(&self) -> SessionU {
        *self
    }
}

impl Writeable for SessionU {
    open spec fn wf_v(w: SessionU) -> bool {
        true
    }

    open spec fn enc_v(w: SessionU) -> Seq<u8> {
        <SessionType as Writeable>::enc_v(w.session_type) + <u16 as Writeable>::enc_v(w.laps) + <u16 as Writeable>::enc_v(w.time)
    }

    fn write(&self, buffer: &mut Vec<u8>) {
        self.session_type.write(buffer);
        self.laps.write(buffer);
        self.time.write(buffer);
        assert(buffer@ =~= old(buffer)@ + Self::enc_v(self@));
    }
}

impl Readable for SessionU {
    open spec fn dec_v(s: Seq<u8>) -> Option<(SessionU, int)> {
        match <SessionType as Readable>::dec_v(s) {
            None => None,
            Some((session_type, n1)) => 
            match <u16 as Readable>::dec_v(s.skip(n1)) {
                None => None,
                Some((laps, n2)) => 
                match <u16 as Readable>::dec_v(s.skip(n1 + n2)) {
                    None => None,
                    Some((time, n3)) => Some((SessionU { session_type, laps, time }, n1 + n2 + n3)),
                },
            },
        }
    }

    open spec fn reads_to_end() -> bool {
        false
    }

    proof fn lemma_dec_sound(s: Seq<u8>) {
        <SessionType as Readable>::lemma_dec_sound(s);
        if let Some((session_type, n1)) = <SessionType as Readable>::dec_v(s) {
            <u16 as Readable>::lemma_dec_sound(s.skip(n1));
            if let Some((laps, n2)) = <u16 as Readable>::dec_v(s.skip(n1)) {
                <u16 as Readable>::lemma_dec_sound(s.skip(n1 + n2));
                if let Some((time, n3)) = <u16 as Readable>::dec_v(s.skip(n1 + n2)) {
                    assert(s.take(n1) + s.skip(n1).take(n2) =~= s.take(n1 + n2));
                    assert(s.take(n1 + n2) + s.skip(n1 + n2).take(n3) =~= s.take(n1 + n2 + n3));
                }
            }
        }
    }

    proof fn lemma_dec_complete(w: SessionU, rest: Seq<u8>) {
        let e1 = <SessionType as Writeable>::enc_v(w.session_type);
        let e2 = <u16 as Writeable>::enc_v(w.laps);
        let e3 = <u16 as Writeable>::enc_v(w.time);
        let r3 = rest;
        let r2 = e3 + r3;
        let r1 = e2 + r2;
        let s = Self::enc_v(w) + rest;
        assert(s =~= e1 + r1);
        <SessionType as Readable>::lemma_dec_complete(w.session_type, r1);
        lemma_skip_concat(e1, r1);
        <u16 as Readable>::lemma_dec_complete(w.laps, r2);
        lemma_skip_concat(e2, r2);
        lemma_skip_skip(s, (e1.len()) as int, e2.len() as int);
        <u16 as Readable>::lemma_dec_complete(w.time, r3);
        lemma_skip_concat(e3, r3);
        lemma_skip_skip(s, (e1.len() + e2.len()) as int, e3.len() as int);
    }

    fn read(buf: &[u8], pos: &mut usize) -> (r: Result<SessionU, Error>) {
        let ghost s = buf@.skip(*pos as int);
        let ghost p0 = *pos;
        let f_session_type = match <SessionType as Readable>::read(buf, pos) {
            Ok(v) => v,
            Err(e) => {
                return Err(e);
            },
        };
        assert(buf@.skip(*pos as int) =~= s.skip(*pos - p0));
        let f_laps = match <u16 as Readable>::read(buf, pos) {
            Ok(v) => v,
            Err(e) => {
                return Err(e);
            },
        };
        assert(buf@.skip(*pos as int) =~= s.skip(*pos - p0));
        let f_time = match <u16 as Readable>::read(buf, pos) {
            Ok(v) => v,
            Err(e) => {
                return Err(e);
            },
        };
        let v = SessionU { session_type: f_session_type, laps: f_laps, time: f_time };
        Ok(v)
    }
}

/// One fixed-setup entry: a setting name and its value bits.
#[derive(Debug, Clone, PartialEq)]
pub struct Setup {
    pub name: ByteString,
    pub value: F32,
}

/// The mathematical view of [`Setup`].
#[verifier::ext_equal]
pub struct SetupView {
    pub name: Seq<u8>,
    pub value: F32,
}

impl View for Setup {
    type V = SetupView;

    open spec fn view(&self) -> SetupView {
        SetupView {
            name: self.name@,
            value: self.value,
        }
    }
}

impl Writeable for Setup {
    open spec fn wf_v(w: SetupView) -> bool {
        <ByteString as Writeable>::wf_v(w.name)
    }

    open spec fn enc_v(w: SetupView) -> Seq<u8> {
        <ByteString as Writeable>::enc_v(w.name) + <F32 as Writeable>::enc_v(w.value)
    }

    fn write(&self, buffer: &mut Vec<u8>) {
        self.name.write(buffer);
        self.value.write(buffer);
        assert(buffer@ =~= old(buffer)@ + Self::enc_v(self@));
    }
}

impl Readable for Setup {
    open spec fn dec_v(s: Seq<u8>) -> Option<(SetupView, int)> {
        match <ByteString as Readable>::dec_v(s) {
            None => None,
            Some((name, n1)) => 
            match <F32 as Readable>::dec_v(s.skip(n1)) {
                None => None,
                Some((value, n2)) => Some((SetupView { name, value }, n1 + n2)),
            },
        }
    }

    open spec fn reads_to_end() -> bool {
        false
    }

    proof fn lemma_dec_sound(s: Seq<u8>) {
        <ByteString as Readable>::lemma_dec_sound(s);
        if let Some((name, n1)) = <ByteString as Readable>::dec_v(s) {
            <F32 as Readable>::lemma_dec_sound(s.skip(n1));
            if let Some((value, n2)) = <F32 as Readable>::dec_v(s.skip(n1)) {
                assert(s.take(n1) + s.skip(n1).take(n2) =~= s.take(n1 + n2));
            }
        }
    }

    proof fn lemma_dec_complete(w: SetupView, rest: Seq<u8>) {
        let e1 = <ByteString as Writeable>::enc_v(w.name);
        let e2 = <F32 as Writeable>::enc_v(w.value);
        let r2 = rest;
        let r1 = e2 + r2;
        let s = Self::enc_v(w) + rest;
        assert(s =~= e1 + r1);
        <ByteString as Readable>::lemma_dec_complete(w.name, r1);
        lemma_skip_concat(e1, r1);
        <F32 as Readable>::lemma_dec_complete(w.value, r2);
        lemma_skip_concat(e2, r2);
        lemma_skip_skip(s, (e1.len()) as int, e2.len() as int);
    }

    fn read(buf: &[u8], pos: &mut usize) -> (r: Result<Setup, Error>) {
        let ghost s = buf@.skip(*pos as int);
        let ghost p0 = *pos;
        let f_name = match <ByteString as Readable>::read(buf, pos) {
            Ok(v) => v,
            Err(e) => {
                return Err(e);
            },
        };
        assert(buf@.skip(*pos as int) =~= s.skip(*pos - p0));
        let f_value = match <F32 as Readable>::read(buf, pos) {
            Ok(v) => v,
            Err(e) => {
                return Err(e);
            },
        };
        let v = Setup { name: f_name, value: f_value };
        assert(v@ =~= SetupView { name: f_name@, value: f_value });
        Ok(v)
    }
}

/// Balance of performance for one car: ballast and restrictor bits.
#[derive(Debug, Clone, Copy, PartialEq, Eq, Structural)]
pub struct Bop {
    pub car_id: u8,
    pub ballast: F32,
    pub restrictor: F32,
}

impl View for Bop {
    type V = Bop;

    open spec fn view(&self) -> Bop {
        *self
    }
}

impl Writeable for Bop {
    open spec fn wf_v(w: Bop) -> bool {
        true
    }

    open spec fn enc_v(w: Bop) -> Seq<u8> {
        <u8 as Writeable>::enc_v(w.car_id) + <F32 as Writeable>::enc_v(w.ballast) + <F32 as Writeable>::enc_v(w.restrictor)
    }

    fn write(&self, buffer: &mut Vec<u8>) {
        self.car_id.write(buffer);
        self.ballast.write(buffer);
        self.restrictor.write(buffer);
        assert(buffer@ =~= old(buffer)@ + Self::enc_v(self@));
    }
}

impl Readable for Bop {
    open spec fn dec_v(s: Seq<u8>) -> Option<(Bop, int)> {
        match <u8 as Readable>::dec_v(s) {
            None => None,
            Some((car_id, n1)) => 
            match <F32 as Readable>::dec_v(s.skip(n1)) {
                None => None,
                Some((ballast, n2)) => 
                match <F32 as Readable>::dec_v(s.skip(n1 + n2)) {
                    None => None,
                    Some((restrictor, n3)) => Some((Bop { car_id, ballast, restrictor }, n1 + n2 + n3)),
                },
            },
        }
    }

    open spec fn reads_to_end() -> bool {
        false
    }

    proof fn lemma_dec_sound(s: Seq<u8>) {
        <u8 as Readable>::lemma_dec_sound(s);
        if let Some((car_id, n1)) = <u8 as Readable>::dec_v(s) {
            <F32 as Readable>::lemma_dec_sound(s.skip(n1));
            if let Some((ballast, n2)) = <F32 as Readable>::dec_v(s.skip(n1)) {
                <F32 as Readable>::lemma_dec_sound(s.skip(n1 + n2));
                if let Some((restrictor, n3)) = <F32 as Readable>::dec_v(s.skip(n1 + n2)) {
                    assert(s.take(n1) + s.skip(n1).take(n2) =~= s.take(n1 + n2));
                    assert(s.take(n1 + n2) + s.skip(n1 + n2).take(n3) =~= s.take(n1 + n2 + n3));
                }
            }
        }
    }

    proof fn lemma_dec_complete(w: Bop, rest: Seq<u8>) {
        let e1 = <u8 as Writeable>::enc_v(w.car_id);
        let e2 = <F32 as Writeable>::enc_v(w.ballast);
        let e3 = <F32 as Writeable>::enc_v(w.restrictor);
        let r3 = rest;
        let r2 = e3 + r3;
        let r1 = e2 + r2;
        let s = Self::enc_v(w) + rest;
        assert(s =~= e1 + r1);
        <u8 as Readable>::lemma_dec_complete(w.car_id, r1);
        lemma_skip_concat(e1, r1);
        <F32 as Readable>::lemma_dec_complete(w.ballast, r2);
        lemma_skip_concat(e2, r2);
        lemma_skip_skip(s, (e1.len()) as int, e2.len() as int);
        <F32 as Readable>::lemma_dec_complete(w.restrictor, r3);
        lemma_skip_concat(e3, r3);
        lemma_skip_skip(s, (e1.len() + e2.len()) as int, e3.len() as int);
    }

    fn read(buf: &[u8], pos: &mut usize) -> (r: Result<Bop, Error>) {
        let ghost s = buf@.skip(*pos as int);
        let ghost p0 = *pos;
        let f_car_id = match <u8 as Readable>::read(buf, pos) {
            Ok(v) => v,
            Err(e) => {
                return Err(e);
            },
        };
        assert(buf@.skip(*pos as int) =~= s.skip(*pos - p0));
        let f_ballast = match <F32 as Readable>::read(buf, pos) {
            Ok(v) => v,
            Err(e) => {
                return Err(e);
            },
        };
        assert(buf@.skip(*pos as int) =~= s.skip(*pos - p0));
        let f_restrictor = match <F32 as Readable>::read(buf, pos) {
            Ok(v) => v,
            Err(e) => {
                return Err(e);
            },
        };
        let v = Bop { car_id: f_car_id, ballast: f_ballast, restrictor: f_restrictor };
        Ok(v)
    }
}

/// One drag-reduction zone boundary pair.
#[derive(Debug, Clone, Copy, PartialEq, Eq, Structural)]
pub struct DRSZone {
    pub unknown: F32,
    pub unknown2: F32,
}

impl View for DRSZone {
    type V = DRSZone;

    open spec fn view(&self) -> DRSZone {
        *self
    }
}

impl Writeable for DRSZone {
    open spec fn wf_v(w: DRSZone) -> bool {
        true
    }

    open spec fn enc_v(w: DRSZone) -> Seq<u8> {
        <F32 as Writeable>::enc_v(w.unknown) + <F32 as Writeable>::enc_v(w.unknown2)
    }

    fn write(&self, buffer: &mut Vec<u8>) {
        self.unknown.write(buffer);
        self.unknown2.write(buffer);
        assert(buffer@ =~= old(buffer)@ + Self::enc_v(self@));
    }
}

impl Readable for DRSZone {
    open spec fn dec_v(s: Seq<u8>) -> Option<(DRSZone, int)> {
        match <F32 as Readable>::dec_v(s) {
            None => None,
            Some((unknown, n1)) => 
            match <F32 as Readable>::dec_v(s.skip(n1)) {
                None => None,
                Some((unknown2, n2)) => Some((DRSZone { unknown, unknown2 }, n1 + n2)),
            },
        }
    }

    open spec fn reads_to_end() -> bool {
        false
    }

    proof fn lemma_dec_sound(s: Seq<u8>) {
        <F32 as Readable>::lemma_dec_sound(s);
        if let Some((unknown, n1)) = <F32 as Readable>::dec_v(s) {
            <F32 as Readable>::lemma_dec_sound(s.skip(n1));
            if let Some((unknown2, n2)) = <F32 as Readable>::dec_v(s.skip(n1)) {
                assert(s.take(n1) + s.skip(n1).take(n2) =~= s.take(n1 + n2));
            }
        }
    }

    proof fn lemma_dec_complete(w: DRSZone, rest: Seq<u8>) {
        let e1 = <F32 as Writeable>::enc_v(w.unknown);
        let e2 = <F32 as Writeable>::enc_v(w.unknown2);
        let r2 = rest;
        let r1 = e2 + r2;
        let s = Self::enc_v(w) + rest;
        assert(s =~= e1 + r1);
        <F32 as Readable>::lemma_dec_complete(w.unknown, r1);
        lemma_skip_concat(e1, r1);
        <F32 as Readable>::lemma_dec_complete(w.unknown2, r2);
        lemma_skip_concat(e2, r2);
        lemma_skip_skip(s, (e1.len()) as int, e2.len() as int);
    }

    fn read(buf: &[u8], pos: &mut usize) -> (r: Result<DRSZone, Error>) {
        let ghost s = buf@.skip(*pos as int);
        let ghost p0 = *pos;
        let f_unknown = match <F32 as Readable>::read(buf, pos) {
            Ok(v) => v,
            Err(e) => {
                return Err(e);
            },
        };
        assert(buf@.skip(*pos as int) =~= s.skip(*pos - p0));
        let f_unknown2 = match <F32 as Readable>::read(buf, pos) {
            Ok(v) => v,
            Err(e) => {
                return Err(e);
            },
        };
        let v = DRSZone { unknown: f_unknown, unknown2: f_unknown2 };
        Ok(v)
    }
}

/// Who drives what: the car model and skin and the driver names of one
/// car-list row.
#[derive(Debug, Clone, PartialEq)]
pub struct CarIdentity {
    pub car_model: ByteString,
    pub car_skin: ByteString,
    pub driver_name: ByteString,
    pub driver_team: ByteString,
    pub driver_nation: ByteString,
}

/// The mathematical view of [`CarIdentity`].
#[verifier::ext_equal]
pub struct CarIdentityView {
    pub car_model: Seq<u8>,
    pub car_skin: Seq<u8>,
    pub driver_name: Seq<u8>,
    pub driver_team: Seq<u8>,
    pub driver_nation: Seq<u8>,
}

impl View for CarIdentity {
    type V = CarIdentityView;

    open spec fn view(&self) -> CarIdentityView {
        CarIdentityView {
            car_model: self.car_model@,
            car_skin: self.car_skin@,
            driver_name: self.driver_name@,
            driver_team: self.driver_team@,
            driver_nation: self.driver_nation@,
        }
    }
}

impl Writeable for CarIdentity {
    open spec fn wf_v(w: CarIdentityView) -> bool {
        &&& <ByteString as Writeable>::wf_v(w.car_model)
        &&& <ByteString as Writeable>::wf_v(w.car_skin)
        &&& <ByteString as Writeable>::wf_v(w.driver_name)
        &&& <ByteString as Writeable>::wf_v(w.driver_team)
        &&& <ByteString as Writeable>::wf_v(w.driver_nation)
    }

    open spec fn enc_v(w: CarIdentityView) -> Seq<u8> {
        <ByteString as Writeable>::enc_v(w.car_model) + <ByteString as Writeable>::enc_v(w.car_skin) + <ByteString as Writeable>::enc_v(w.driver_name) + <ByteString as Writeable>::enc_v(w.driver_team) + <ByteString as Writeable>::enc_v(w.driver_nation)
    }

    fn write(&self, buffer: &mut Vec<u8>) {
        self.car_model.write(buffer);
        self.car_skin.write(buffer);
        self.driver_name.write(buffer);
        self.driver_team.write(buffer);
        self.driver_nation.write(buffer);
        assert(buffer@ =~= old(buffer)@ + Self::enc_v(self@));
    }
}

impl Readable for CarIdentity {
    open spec fn dec_v(s: Seq<u8>) -> Option<(CarIdentityView, int)> {
        match <ByteString as Readable>::dec_v(s) {
            None => None,
            Some((car_model, n1)) => 
            match <ByteString as Readable>::dec_v(s.skip(n1)) {
                None => None,
                Some((car_skin, n2)) => 
                match <ByteString as Readable>::dec_v(s.skip(n1 + n2)) {
                    None => None,
                    Some((driver_name, n3)) => 
                    match <ByteString as Readable>::dec_v(s.skip(n1 + n2 + n3)) {
                        None => None,
                        Some((driver_team, n4)) => 
                        match <ByteString as Readable>::dec_v(s.skip(n1 + n2 + n3 + n4)) {
                            None => None,
                            Some((driver_nation, n5)) => Some((CarIdentityView { car_model, car_skin, driver_name, driver_team, driver_nation }, n1 + n2 + n3 + n4 + n5)),
                        },
                    },
                },
            },
        }
    }

    open spec fn reads_to_end() -> bool {
        false
    }

    proof fn lemma_dec_sound(s: Seq<u8>) {
        <ByteString as Readable>::lemma_dec_sound(s);
        if let Some((car_model, n1)) = <ByteString as Readable>::dec_v(s) {
            <ByteString as Readable>::lemma_dec_sound(s.skip(n1));
            if let Some((car_skin, n2)) = <ByteString as Readable>::dec_v(s.skip(n1)) {
                <ByteString as Readable>::lemma_dec_sound(s.skip(n1 + n2));
                if let Some((driver_name, n3)) = <ByteString as Readable>::dec_v(s.skip(n1 + n2)) {
                    <ByteString as Readable>::lemma_dec_sound(s.skip(n1 + n2 + n3));
                    if let Some((driver_team, n4)) = <ByteString as Readable>::dec_v(s.skip(n1 + n2 + n3)) {
                        <ByteString as Readable>::lemma_dec_sound(s.skip(n1 + n2 + n3 + n4));
                        if let Some((driver_nation, n5)) = <ByteString as Readable>::dec_v(s.skip(n1 + n2 + n3 + n4)) {
                            assert(s.take(n1) + s.skip(n1).take(n2) =~= s.take(n1 + n2));
                            assert(s.take(n1 + n2) + s.skip(n1 + n2).take(n3) =~= s.take(n1 + n2 + n3));
                            assert(s.take(n1 + n2 + n3) + s.skip(n1 + n2 + n3).take(n4) =~= s.take(n1 + n2 + n3 + n4));
                            assert(s.take(n1 + n2 + n3 + n4) + s.skip(n1 + n2 + n3 + n4).take(n5) =~= s.take(n1 + n2 + n3 + n4 + n5));
                        }
                    }
                }
            }
        }
    }

    proof fn lemma_dec_complete(w: CarIdentityView, rest: Seq<u8>) {
        let e1 = <ByteString as Writeable>::enc_v(w.car_model);
        let e2 = <ByteString as Writeable>::enc_v(w.car_skin);
        let e3 = <ByteString as Writeable>::enc_v(w.driver_name);
        let e4 = <ByteString as Writeable>::enc_v(w.driver_team);
        let e5 = <ByteString as Writeable>::enc_v(w.driver_nation);
        let r5 = rest;
        let r4 = e5 + r5;
        let r3 = e4 + r4;
        let r2 = e3 + r3;
        let r1 = e2 + r2;
        let s = Self::enc_v(w) + rest;
        assert(s =~= e1 + r1);
        <ByteString as Readable>::lemma_dec_complete(w.car_model, r1);
        lemma_skip_concat(e1, r1);
        <ByteString as Readable>::lemma_dec_complete(w.car_skin, r2);
        lemma_skip_concat(e2, r2);
        lemma_skip_skip(s, (e1.len()) as int, e2.len() as int);
        <ByteString as Readable>::lemma_dec_complete(w.driver_name, r3);
        lemma_skip_concat(e3, r3);
        lemma_skip_skip(s, (e1.len() + e2.len()) as int, e3.len() as int);
        <ByteString as Readable>::lemma_dec_complete(w.driver_team, r4);
        lemma_skip_concat(e4, r4);
        lemma_skip_skip(s, (e1.len() + e2.len() + e3.len()) as int, e4.len() as int);
        <ByteString as Readable>::lemma_dec_complete(w.driver_nation, r5);
        lemma_skip_concat(e5, r5);
        lemma_skip_skip(s, (e1.len() + e2.len() + e3.len() + e4.len()) as int, e5.len() as int);
    }

    fn read(buf: &[u8], pos: &mut usize) -> (r: Result<CarIdentity, Error>) {
        let ghost s = buf@.skip(*pos as int);
        let ghost p0 = *pos;
        let f_car_model = match <ByteString as Readable>::read(buf, pos) {
            Ok(v) => v,
            Err(e) => {
                return Err(e);
            },
        };
        assert(buf@.skip(*pos as int) =~= s.skip(*pos - p0));
        let f_car_skin = match <ByteString as Readable>::read(buf, pos) {
            Ok(v) => v,
            Err(e) => {
                return Err(e);
            },
        };
        assert(buf@.skip(*pos as int) =~= s.skip(*pos - p0));
        let f_driver_name = match <ByteString as Readable>::read(buf, pos) {
            Ok(v) => v,
            Err(e) => {
                return Err(e);
            },
        };
        assert(buf@.skip(*pos as int) =~= s.skip(*pos - p0));
        let f_driver_team = match <ByteString as Readable>::read(buf, pos) {
            Ok(v) => v,
            Err(e) => {
                return Err(e);
            },
        };
        assert(buf@.skip(*pos as int) =~= s.skip(*pos - p0));
        let f_driver_nation = match <ByteString as Readable>::read(buf, pos) {
            Ok(v) => v,
            Err(e) => {
                return Err(e);
            },
        };
        let v = CarIdentity { car_model: f_car_model, car_skin: f_car_skin, driver_name: f_driver_name, driver_team: f_driver_team, driver_nation: f_driver_nation };
        assert(v@ =~= CarIdentityView { car_model: f_car_model@, car_skin: f_car_skin@, driver_name: f_driver_name@, driver_team: f_driver_team@, driver_nation: f_driver_nation@ });
        Ok(v)
    }
}

/// One car-list row: the slot index, the car and driver identity, and
/// the five damage-zone values.
#[derive(Debug, Clone, PartialEq)]
pub struct Car {
    pub index: u8,
    pub identity: CarIdentity,
    pub is_spectator: bool,
    pub damage: F32,
    pub damage1: F32,
    pub damage2: F32,
    pub damage3: F32,
    pub damage4: F32,
}

/// The mathematical view of [`Car`].
#[verifier::ext_equal]
pub struct CarView {
    pub index: u8,
    pub identity: CarIdentityView,
    pub is_spectator: bool,
    pub damage: F32,
    pub damage1: F32,
    pub damage2: F32,
    pub damage3: F32,
    pub damage4: F32,
}

impl View for Car {
    type V = CarView;

    open spec fn view(&self) -> CarView {
        CarView {
            index: self.index,
            identity: self.identity@,
            is_spectator: self.is_spectator,
            damage: self.damage,
            damage1: self.damage1,
            damage2: self.damage2,
            damage3: self.damage3,
            damage4: self.damage4,
        }
    }
}

impl Writeable for Car {
    open spec fn wf_v(w: CarView) -> bool {
        <CarIdentity as Writeable>::wf_v(w.identity)
    }

    open spec fn enc_v(w: CarView) -> Seq<u8> {
        <u8 as Writeable>::enc_v(w.index) + <CarIdentity as Writeable>::enc_v(w.identity) + <bool as Writeable>::enc_v(w.is_spectator) + <F32 as Writeable>::enc_v(w.damage) + <F32 as Writeable>::enc_v(w.damage1) + <F32 as Writeable>::enc_v(w.damage2) + <F32 as Writeable>::enc_v(w.damage3) + <F32 as Writeable>::enc_v(w.damage4)
    }

    #[verifier::rlimit(100)]
    #[verifier::spinoff_prover]
    fn write(&self, buffer: &mut Vec<u8>) {
        self.index.write(buffer);
        self.identity.write(buffer);
        self.is_spectator.write(buffer);
        self.damage.write(buffer);
        self.damage1.write(buffer);
        self.damage2.write(buffer);
        self.damage3.write(buffer);
        self.damage4.write(buffer);
        assert(buffer@ =~= old(buffer)@ + Self::enc_v(self@));
    }
}

impl Readable for Car {
    open spec fn dec_v(s: Seq<u8>) -> Option<(CarView, int)> {
        match <u8 as Readable>::dec_v(s) {
            None => None,
            Some((index, n1)) => 
            match <CarIdentity as Readable>::dec_v(s.skip(n1)) {
                None => None,
                Some((identity, n2)) => 
                match <bool as Readable>::dec_v(s.skip(n1 + n2)) {
                    None => None,
                    Some((is_spectator, n3)) => 
                    match <F32 as Readable>::dec_v(s.skip(n1 + n2 + n3)) {
                        None => None,
                        Some((damage, n4)) => 
                        match <F32 as Readable>::dec_v(s.skip(n1 + n2 + n3 + n4)) {
                            None => None,
                            Some((damage1, n5)) => 
                            match <F32 as Readable>::dec_v(s.skip(n1 + n2 + n3 + n4 + n5)) {
                                None => None,
                                Some((damage2, n6)) => 
                                match <F32 as Readable>::dec_v(s.skip(n1 + n2 + n3 + n4 + n5 + n6)) {
                                    None => None,
                                    Some((damage3, n7)) => 
                                    match <F32 as Readable>::dec_v(s.skip(n1 + n2 + n3 + n4 + n5 + n6 + n7)) {
                                        None => None,
                                        Some((damage4, n8)) => Some((CarView { index, identity, is_spectator, damage, damage1, damage2, damage3, damage4 }, n1 + n2 + n3 + n4 + n5 + n6 + n7 + n8)),
                                    },
                                },
                            },
                        },
                    },
                },
            },
        }
    }

    open spec fn reads_to_end() -> bool {
        false
    }

    #[verifier::rlimit(100)]
    #[verifier::spinoff_prover]
    proof fn lemma_dec_sound(s: Seq<u8>) {
        <u8 as Readable>::lemma_dec_sound(s);
        if let Some((index, n1)) = <u8 as Readable>::dec_v(s) {
            <CarIdentity as Readable>::lemma_dec_sound(s.skip(n1));
            if let Some((identity, n2)) = <CarIdentity as Readable>::dec_v(s.skip(n1)) {
                <bool as Readable>::lemma_dec_sound(s.skip(n1 + n2));
                if let Some((is_spectator, n3)) = <bool as Readable>::dec_v(s.skip(n1 + n2)) {
                    <F32 as Readable>::lemma_dec_sound(s.skip(n1 + n2 + n3));
                    if let Some((damage, n4)) = <F32 as Readable>::dec_v(s.skip(n1 + n2 + n3)) {
                        <F32 as Readable>::lemma_dec_sound(s.skip(n1 + n2 + n3 + n4));
                        if let Some((damage1, n5)) = <F32 as Readable>::dec_v(s.skip(n1 + n2 + n3 + n4)) {
                            <F32 as Readable>::lemma_dec_sound(s.skip(n1 + n2 + n3 + n4 + n5));
                            if let Some((damage2, n6)) = <F32 as Readable>::dec_v(s.skip(n1 + n2 + n3 + n4 + n5)) {
                                <F32 as Readable>::lemma_dec_sound(s.skip(n1 + n2 + n3 + n4 + n5 + n6));
                                if let Some((damage3, n7)) = <F32 as Readable>::dec_v(s.skip(n1 + n2 + n3 + n4 + n5 + n6)) {
                                    <F32 as Readable>::lemma_dec_sound(s.skip(n1 + n2 + n3 + n4 + n5 + n6 + n7));
                                    if let Some((damage4, n8)) = <F32 as Readable>::dec_v(s.skip(n1 + n2 + n3 + n4 + n5 + n6 + n7)) {
                                        assert(s.take(n1) + s.skip(n1).take(n2) =~= s.take(n1 + n2));
                                        assert(s.take(n1 + n2) + s.skip(n1 + n2).take(n3) =~= s.take(n1 + n2 + n3));
                                        assert(s.take(n1 + n2 + n3) + s.skip(n1 + n2 + n3).take(n4) =~= s.take(n1 + n2 + n3 + n4));
                                        assert(s.take(n1 + n2 + n3 + n4) + s.skip(n1 + n2 + n3 + n4).take(n5) =~= s.take(n1 + n2 + n3 + n4 + n5));
                                        assert(s.take(n1 + n2 + n3 + n4 + n5) + s.skip(n1 + n2 + n3 + n4 + n5).take(n6) =~= s.take(n1 + n2 + n3 + n4 + n5 + n6));
                                        assert(s.take(n1 + n2 + n3 + n4 + n5 + n6) + s.skip(n1 + n2 + n3 + n4 + n5 + n6).take(n7) =~= s.take(n1 + n2 + n3 + n4 + n5 + n6 + n7));
                                        assert(s.take(n1 + n2 + n3 + n4 + n5 + n6 + n7) + s.skip(n1 + n2 + n3 + n4 + n5 + n6 + n7).take(n8) =~= s.take(n1 + n2 + n3 + n4 + n5 + n6 + n7 + n8));
                                    }
                                }
                            }
                        }
                    }
                }
            }
        }
    }

    #[verifier::rlimit(100)]
    #[verifier::spinoff_prover]
    proof fn lemma_dec_complete(w: CarView, rest: Seq<u8>) {
        let e1 = <u8 as Writeable>::enc_v(w.index);
        let e2 = <CarIdentity as Writeable>::enc_v(w.identity);
        let e3 = <bool as Writeable>::enc_v(w.is_spectator);
        let e4 = <F32 as Writeable>::enc_v(w.damage);
        let e5 = <F32 as Writeable>::enc_v(w.damage1);
        let e6 = <F32 as Writeable>::enc_v(w.damage2);
        let e7 = <F32 as Writeable>::enc_v(w.damage3);
        let e8 = <F32 as Writeable>::enc_v(w.damage4);
        let r8 = rest;
        let r7 = e8 + r8;
        let r6 = e7 + r7;
        let r5 = e6 + r6;
        let r4 = e5 + r5;
        let r3 = e4 + r4;
        let r2 = e3 + r3;
        let r1 = e2 + r2;
        let s = Self::enc_v(w) + rest;
        assert(s =~= e1 + r1);
        <u8 as Readable>::lemma_dec_complete(w.index, r1);
        lemma_skip_concat(e1, r1);
        <CarIdentity as Readable>::lemma_dec_complete(w.identity, r2);
        lemma_skip_concat(e2, r2);
        lemma_skip_skip(s, (e1.len()) as int, e2.len() as int);
        <bool as Readable>::lemma_dec_complete(w.is_spectator, r3);
        lemma_skip_concat(e3, r3);
        lemma_skip_skip(s, (e1.len() + e2.len()) as int, e3.len() as int);
        <F32 as Readable>::lemma_dec_complete(w.damage, r4);
        lemma_skip_concat(e4, r4);
        lemma_skip_skip(s, (e1.len() + e2.len() + e3.len()) as int, e4.len() as int);
        <F32 as Readable>::lemma_dec_complete(w.damage1, r5);
        lemma_skip_concat(e5, r5);
        lemma_skip_skip(s, (e1.len() + e2.len() + e3.len() + e4.len()) as int, e5.len() as int);
        <F32 as Readable>::lemma_dec_complete(w.damage2, r6);
        lemma_skip_concat(e6, r6);
        lemma_skip_skip(s, (e1.len() + e2.len() + e3.len() + e4.len() + e5.len()) as int, e6.len() as int);
        <F32 as Readable>::lemma_dec_complete(w.damage3, r7);
        lemma_skip_concat(e7, r7);
        lemma_skip_skip(s, (e1.len() + e2.len() + e3.len() + e4.len() + e5.len() + e6.len()) as int, e7.len() as int);
        <F32 as Readable>::lemma_dec_complete(w.damage4, r8);
        lemma_skip_concat(e8, r8);
        lemma_skip_skip(s, (e1.len() + e2.len() + e3.len() + e4.len() + e5.len() + e6.len() + e7.len()) as int, e8.len() as int);
    }

    #[verifier::rlimit(100)]
    #[verifier::spinoff_prover]
    fn read(buf: &[u8], pos: &mut usize) -> (r: Result<Car, Error>) {
        let ghost s = buf@.skip(*pos as int);
        let ghost p0 = *pos;
        let f_index = match <u8 as Readable>::read(buf, pos) {
            Ok(v) => v,
            Err(e) => {
                return Err(e);
            },
        };
        assert(buf@.skip(*pos as int) =~= s.skip(*pos - p0));
        let f_identity = match <CarIdentity as Readable>::read(buf, pos) {
            Ok(v) => v,
            Err(e) => {
                return Err(e);
            },
        };
        assert(buf@.skip(*pos as int) =~= s.skip(*pos - p0));
        let f_is_spectator = match <bool as Readable>::read(buf, pos) {
            Ok(v) => v,
            Err(e) => {
                return Err(e);
            },
        };
        assert(buf@.skip(*pos as int) =~= s.skip(*pos - p0));
        let f_damage = match <F32 as Readable>::read(buf, pos) {
            Ok(v) => v,
            Err(e) => {
                return Err(e);
            },
        };
        assert(buf@.skip(*pos as int) =~= s.skip(*pos - p0));
        let f_damage1 = match <F32 as Readable>::read(buf, pos) {
            Ok(v) => v,
            Err(e) => {
                return Err(e);
            },
        };
        assert(buf@.skip(*pos as int) =~= s.skip(*pos - p0));
        let f_damage2 = match <F32 as Readable>::read(buf, pos) {
            Ok(v) => v,
            Err(e) => {
                return Err(e);
            },
        };
        assert(buf@.skip(*pos as int) =~= s.skip(*pos - p0));
        let f_damage3 = match <F32 as Readable>::read(buf, pos) {
            Ok(v) => v,
            Err(e) => {
                return Err(e);
            },
        };
        assert(buf@.skip(*pos as int) =~= s.skip(*pos - p0));
        let f_damage4 = match <F32 as Readable>::read(buf, pos) {
            Ok(v) => v,
            Err(e) => {
                return Err(e);
            },
        };
        let v = Car { index: f_index, identity: f_identity, is_spectator: f_is_spectator, damage: f_damage, damage1: f_damage1, damage2: f_damage2, damage3: f_damage3, damage4: f_damage4 };
        assert(v@ =~= CarView { index: f_index, identity: f_identity@, is_spectator: f_is_spectator, damage: f_damage, damage1: f_damage1, damage2: f_damage2, damage3: f_damage3, damage4: f_damage4 });
        Ok(v)
    }
}

/// One driver-name row.
#[derive(Debug, Clone, PartialEq)]
pub struct Name {
    pub car_id: u8,
    pub name: WideString,
}

/// The mathematical view of [`Name`].
#[verifier::ext_equal]
pub struct NameView {
    pub car_id: u8,
    pub name: Seq<u32>,
}

impl View for Name {
    type V = NameView;

    open spec fn view(&self) -> NameView {
        NameView {
            car_id: self.car_id,
            name: self.name@,
        }
    }
}

impl Writeable for Name {
    open spec fn wf_v(w: NameView) -> bool {
        <WideString as Writeable>::wf_v(w.name)
    }

    open spec fn enc_v(w: NameView) -> Seq<u8> {
        <u8 as Writeable>::enc_v(w.car_id) + <WideString as Writeable>::enc_v(w.name)
    }

    fn write(&self, buffer: &mut Vec<u8>) {
        self.car_id.write(buffer);
        self.name.write(buffer);
        assert(buffer@ =~= old(buffer)@ + Self::enc_v(self@));
    }
}

impl Readable for Name {
    open spec fn dec_v(s: Seq<u8>) -> Option<(NameView, int)> {
        match <u8 as Readable>::dec_v(s) {
            None => None,
            Some((car_id, n1)) => 
            match <WideString as Readable>::dec_v(s.skip(n1)) {
                None => None,
                Some((name, n2)) => Some((NameView { car_id, name }, n1 + n2)),
            },
        }
    }

    open spec fn reads_to_end() -> bool {
        false
    }

    proof fn lemma_dec_sound(s: Seq<u8>) {
        <u8 as Readable>::lemma_dec_sound(s);
        if let Some((car_id, n1)) = <u8 as Readable>::dec_v(s) {
            <WideString as Readable>::lemma_dec_sound(s.skip(n1));
            if let Some((name, n2)) = <WideString as Readable>::dec_v(s.skip(n1)) {
                assert(s.take(n1) + s.skip(n1).take(n2) =~= s.take(n1 + n2));
            }
        }
    }

    proof fn lemma_dec_complete(w: NameView, rest: Seq<u8>) {
        let e1 = <u8 as Writeable>::enc_v(w.car_id);
        let e2 = <WideString as Writeable>::enc_v(w.name);
        let r2 = rest;
        let r1 = e2 + r2;
        let s = Self::enc_v(w) + rest;
        assert(s =~= e1 + r1);
        <u8 as Readable>::lemma_dec_complete(w.car_id, r1);
        lemma_skip_concat(e1, r1);
        <WideString as Readable>::lemma_dec_complete(w.name, r2);
        lemma_skip_concat(e2, r2);
        lemma_skip_skip(s, (e1.len()) as int, e2.len() as int);
    }

    fn read(buf: &[u8], pos: &mut usize) -> (r: Result<Name, Error>) {
        let ghost s = buf@.skip(*pos as int);
        let ghost p0 = *pos;
        let f_car_id = match <u8 as Readable>::read(buf, pos) {
            Ok(v) => v,
            Err(e) => {
                return Err(e);
            },
        };
        assert(buf@.skip(*pos as int) =~= s.skip(*pos - p0));
        let f_name = match <WideString as Readable>::read(buf, pos) {
            Ok(v) => v,
            Err(e) => {
                return Err(e);
            },
        };
        let v = Name { car_id: f_car_id, name: f_name };
        assert(v@ =~= NameView { car_id: f_car_id, name: f_name@ });
        Ok(v)
    }
}

/// One lap-ledger row broadcast with every lap completion.
#[derive(Debug, Clone, Copy, PartialEq, Eq, Structural)]
pub struct Lap {
    pub car_id: u8,
    pub laptime: u32,
    pub lap_count: u16,
    pub has_completed_last_lap: bool,
}

impl View for Lap {
    type V = Lap;

    open spec fn view(&self) -> Lap {
        *self
    }
}

impl Writeable for Lap {
    open spec fn wf_v(w: Lap) -> bool {
        true
    }

    open spec fn enc_v(w: Lap) -> Seq<u8> {
        <u8 as Writeable>::enc_v(w.car_id) + <u32 as Writeable>::enc_v(w.laptime) + <u16 as Writeable>::enc_v(w.lap_count) + <bool as Writeable>::enc_v(w.has_completed_last_lap)
    }

    fn write(&self, buffer: &mut Vec<u8>) {
        self.car_id.write(buffer);
        self.laptime.write(buffer);
        self.lap_count.write(buffer);
        self.has_completed_last_lap.write(buffer);
        assert(buffer@ =~= old(buffer)@ + Self::enc_v(self@));
    }
}

impl Readable for Lap {
    open spec fn dec_v(s: Seq<u8>) -> Option<(Lap, int)> {
        match <u8 as Readable>::dec_v(s) {
            None => None,
            Some((car_id, n1)) => 
            match <u32 as Readable>::dec_v(s.skip(n1)) {
                None => None,
                Some((laptime, n2)) => 
                match <u16 as Readable>::dec_v(s.skip(n1 + n2)) {
                    None => None,
                    Some((lap_count, n3)) => 
                    match <bool as Readable>::dec_v(s.skip(n1 + n2 + n3)) {
                        None => None,
                        Some((has_completed_last_lap, n4)) => Some((Lap { car_id, laptime, lap_count, has_completed_last_lap }, n1 + n2 + n3 + n4)),
                    },
                },
            },
        }
    }

    open spec fn reads_to_end() -> bool {
        false
    }

    proof fn lemma_dec_sound(s: Seq<u8>) {
        <u8 as Readable>::lemma_dec_sound(s);
        if let Some((car_id, n1)) = <u8 as Readable>::dec_v(s) {
            <u32 as Readable>::lemma_dec_sound(s.skip(n1));
            if let Some((laptime, n2)) = <u32 as Readable>::dec_v(s.skip(n1)) {
                <u16 as Readable>::lemma_dec_sound(s.skip(n1 + n2));
                if let Some((lap_count, n3)) = <u16 as Readable>::dec_v(s.skip(n1 + n2)) {
                    <bool as Readable>::lemma_dec_sound(s.skip(n1 + n2 + n3));
                    if let Some((has_completed_last_lap, n4)) = <bool as Readable>::dec_v(s.skip(n1 + n2 + n3)) {
                        assert(s.take(n1) + s.skip(n1).take(n2) =~= s.take(n1 + n2));
                        assert(s.take(n1 + n2) + s.skip(n1 + n2).take(n3) =~= s.take(n1 + n2 + n3));
                        assert(s.take(n1 + n2 + n3) + s.skip(n1 + n2 + n3).take(n4) =~= s.take(n1 + n2 + n3 + n4));
                    }
                }
            }
        }
    }

    proof fn lemma_dec_complete(w: Lap, rest: Seq<u8>) {
        let e1 = <u8 as Writeable>::enc_v(w.car_id);
        let e2 = <u32 as Writeable>::enc_v(w.laptime);
        let e3 = <u16 as Writeable>::enc_v(w.lap_count);
        let e4 = <bool as Writeable>::enc_v(w.has_completed_last_lap);
        let r4 = rest;
        let r3 = e4 + r4;
        let r2 = e3 + r3;
        let r1 = e2 + r2;
        let s = Self::enc_v(w) + rest;
        assert(s =~= e1 + r1);
        <u8 as Readable>::lemma_dec_complete(w.car_id, r1);
        lemma_skip_concat(e1, r1);
        <u32 as Readable>::lemma_dec_complete(w.laptime, r2);
        lemma_skip_concat(e2, r2);
        lemma_skip_skip(s, (e1.len()) as int, e2.len() as int);
        <u16 as Readable>::lemma_dec_complete(w.lap_count, r3);
        lemma_skip_concat(e3, r3);
        lemma_skip_skip(s, (e1.len() + e2.len()) as int, e3.len() as int);
        <bool as Readable>::lemma_dec_complete(w.has_completed_last_lap, r4);
        lemma_skip_concat(e4, r4);
        lemma_skip_skip(s, (e1.len() + e2.len() + e3.len()) as int, e4.len() as int);
    }

    fn read(buf: &[u8], pos: &mut usize) -> (r: Result<Lap, Error>) {
        let ghost s = buf@.skip(*pos as int);
        let ghost p0 = *pos;
        let f_car_id = match <u8 as Readable>::read(buf, pos) {
            Ok(v) => v,
            Err(e) => {
                return Err(e);
            },
        };
        assert(buf@.skip(*pos as int) =~= s.skip(*pos - p0));
        let f_laptime = match <u32 as Readable>::read(buf, pos) {
            Ok(v) => v,
            Err(e) => {
                return Err(e);
            },
        };
        assert(buf@.skip(*pos as int) =~= s.skip(*pos - p0));
        let f_lap_count = match <u16 as Readable>::read(buf, pos) {
            Ok(v) => v,
            Err(e) => {
                return Err(e);
            },
        };
        assert(buf@.skip(*pos as int) =~= s.skip(*pos - p0));
        let f_has_completed_last_lap = match <bool as Readable>::read(buf, pos) {
            Ok(v) => v,
            Err(e) => {
                return Err(e);
            },
        };
        let v = Lap { car_id: f_car_id, laptime: f_laptime, lap_count: f_lap_count, has_completed_last_lap: f_has_completed_last_lap };
        Ok(v)
    }
}

/// One best-lap row of the race-over report.
#[derive(Debug, Clone, Copy, PartialEq, Eq, Structural)]
pub struct RaceBest {
    pub car_id: u8,
    pub best_lap: u32,
    pub lap_count: u16,
}

impl View for RaceBest {
    type V = RaceBest;

    open spec fn view(&self) -> RaceBest {
        *self
    }
}

impl Writeable for RaceBest {
    open spec fn wf_v(w: RaceBest) -> bool {
        true
    }

    open spec fn enc_v(w: RaceBest) -> Seq<u8> {
        <u8 as Writeable>::enc_v(w.car_id) + <u32 as Writeable>::enc_v(w.best_lap) + <u16 as Writeable>::enc_v(w.lap_count)
    }

    fn write(&self, buffer: &mut Vec<u8>) {
        self.car_id.write(buffer);
        self.best_lap.write(buffer);
        self.lap_count.write(buffer);
        assert(buffer@ =~= old(buffer)@ + Self::enc_v(self@));
    }
}

impl Readable for RaceBest {
    open spec fn dec_v(s: Seq<u8>) -> Option<(RaceBest, int)> {
        match <u8 as Readable>::dec_v(s) {
            None => None,
            Some((car_id, n1)) => 
            match <u32 as Readable>::dec_v(s.skip(n1)) {
                None => None,
                Some((best_lap, n2)) => 
                match <u16 as Readable>::dec_v(s.skip(n1 + n2)) {
                    None => None,
                    Some((lap_count, n3)) => Some((RaceBest { car_id, best_lap, lap_count }, n1 + n2 + n3)),
                },
            },
        }
    }

    open spec fn reads_to_end() -> bool {
        false
    }

    proof fn lemma_dec_sound(s: Seq<u8>) {
        <u8 as Readable>::lemma_dec_sound(s);
        if let Some((car_id, n1)) = <u8 as Readable>::dec_v(s) {
            <u32 as Readable>::lemma_dec_sound(s.skip(n1));
            if let Some((best_lap, n2)) = <u32 as Readable>::dec_v(s.skip(n1)) {
                <u16 as Readable>::lemma_dec_sound(s.skip(n1 + n2));
                if let Some((lap_count, n3)) = <u16 as Readable>::dec_v(s.skip(n1 + n2)) {
                    assert(s.take(n1) + s.skip(n1).take(n2) =~= s.take(n1 + n2));
                    assert(s.take(n1 + n2) + s.skip(n1 + n2).take(n3) =~= s.take(n1 + n2 + n3));
                }
            }
        }
    }

    proof fn lemma_dec_complete(w: RaceBest, rest: Seq<u8>) {
        let e1 = <u8 as Writeable>::enc_v(w.car_id);
        let e2 = <u32 as Writeable>::enc_v(w.best_lap);
        let e3 = <u16 as Writeable>::enc_v(w.lap_count);
        let r3 = rest;
        let r2 = e3 + r3;
        let r1 = e2 + r2;
        let s = Self::enc_v(w) + rest;
        assert(s =~= e1 + r1);
        <u8 as Readable>::lemma_dec_complete(w.car_id, r1);
        lemma_skip_concat(e1, r1);
        <u32 as Readable>::lemma_dec_complete(w.best_lap, r2);
        lemma_skip_concat(e2, r2);
        lemma_skip_skip(s, (e1.len()) as int, e2.len() as int);
        <u16 as Readable>::lemma_dec_complete(w.lap_count, r3);
        lemma_skip_concat(e3, r3);
        lemma_skip_skip(s, (e1.len() + e2.len()) as int, e3.len() as int);
    }

    fn read(buf: &[u8], pos: &mut usize) -> (r: Result<RaceBest, Error>) {
        let ghost s = buf@.skip(*pos as int);
        let ghost p0 = *pos;
        let f_car_id = match <u8 as Readable>::read(buf, pos) {
            Ok(v) => v,
            Err(e) => {
                return Err(e);
            },
        };
        assert(buf@.skip(*pos as int) =~= s.skip(*pos - p0));
        let f_best_lap = match <u32 as Readable>::read(buf, pos) {
            Ok(v) => v,
            Err(e) => {
                return Err(e);
            },
        };
        assert(buf@.skip(*pos as int) =~= s.skip(*pos - p0));
        let f_lap_count = match <u16 as Readable>::read(buf, pos) {
            Ok(v) => v,
            Err(e) => {
                return Err(e);
            },
        };
        let v = RaceBest { car_id: f_car_id, best_lap: f_best_lap, lap_count: f_lap_count };
        Ok(v)
    }
}

/// One car's motion snapshot inside the position fan-out.
#[derive(Debug, Clone, Copy, PartialEq, Eq, Structural)]
pub struct PositionUpdate {
    pub car_id: u8,
    pub pak_sequence_id: u8,
    pub timestamp: u32,
    pub pos: Vec3f,
    pub rotation: Vec3f,
    pub velocity: Vec3f,
    pub tyre_angular_speed: u8,
    pub tyre_angular_speed1: u8,
    pub tyre_angular_speed2: u8,
    pub tyre_angular_speed3: u8,
    pub streer_angle: u8,
    pub wheel_angle: u8,
    pub engine_rpm: u16,
    pub gear: u8,
    pub status: u32,
}

impl View for PositionUpdate {
    type V = PositionUpdate;

    open spec fn view(&self) -> PositionUpdate {
        *self
    }
}

impl Writeable for PositionUpdate {
    open spec fn wf_v(w: PositionUpdate) -> bool {
        true
    }

    open spec fn enc_v(w: PositionUpdate) -> Seq<u8> {
        <u8 as Writeable>::enc_v(w.car_id) + <u8 as Writeable>::enc_v(w.pak_sequence_id) + <u32 as Writeable>::enc_v(w.timestamp) + <Vec3f as Writeable>::enc_v(w.pos) + <Vec3f as Writeable>::enc_v(w.rotation) + <Vec3f as Writeable>::enc_v(w.velocity) + <u8 as Writeable>::enc_v(w.tyre_angular_speed) + <u8 as Writeable>::enc_v(w.tyre_angular_speed1) + <u8 as Writeable>::enc_v(w.tyre_angular_speed2) + <u8 as Writeable>::enc_v(w.tyre_angular_speed3) + <u8 as Writeable>::enc_v(w.streer_angle) + <u8 as Writeable>::enc_v(w.wheel_angle) + <u16 as Writeable>::enc_v(w.engine_rpm) + <u8 as Writeable>::enc_v(w.gear) + <u32 as Writeable>::enc_v(w.status)
    }

    #[verifier::rlimit(100)]
    #[verifier::spinoff_prover]
    fn write(&self, buffer: &mut Vec<u8>) {
        self.car_id.write(buffer);
        self.pak_sequence_id.write(buffer);
        self.timestamp.write(buffer);
        self.pos.write(buffer);
        self.rotation.write(buffer);
        self.velocity.write(buffer);
        self.tyre_angular_speed.write(buffer);
        self.tyre_angular_speed1.write(buffer);
        self.tyre_angular_speed2.write(buffer);
        self.tyre_angular_speed3.write(buffer);
        self.streer_angle.write(buffer);
        self.wheel_angle.write(buffer);
        self.engine_rpm.write(buffer);
        self.gear.write(buffer);
        self.status.write(buffer);
        assert(buffer@ =~= old(buffer)@ + Self::enc_v(self@));
    }
}

impl Readable for PositionUpdate {
    open spec fn dec_v(s: Seq<u8>) -> Option<(PositionUpdate, int)> {
        match <u8 as Readable>::dec_v(s) {
            None => None,
            Some((car_id, n1)) => 
            match <u8 as Readable>::dec_v(s.skip(n1)) {
                None => None,
                Some((pak_sequence_id, n2)) => 
                match <u32 as Readable>::dec_v(s.skip(n1 + n2)) {
                    None => None,
                    Some((timestamp, n3)) => 
                    match <Vec3f as Readable>::dec_v(s.skip(n1 + n2 + n3)) {
                        None => None,
                        Some((pos, n4)) => 
                        match <Vec3f as Readable>::dec_v(s.skip(n1 + n2 + n3 + n4)) {
                            None => None,
                            Some((rotation, n5)) => 
                            match <Vec3f as Readable>::dec_v(s.skip(n1 + n2 + n3 + n4 + n5)) {
                                None => None,
                                Some((velocity, n6)) => 
                                match <u8 as Readable>::dec_v(s.skip(n1 + n2 + n3 + n4 + n5 + n6)) {
                                    None => None,
                                    Some((tyre_angular_speed, n7)) => 
                                    match <u8 as Readable>::dec_v(s.skip(n1 + n2 + n3 + n4 + n5 + n6 + n7)) {
                                        None => None,
                                        Some((tyre_angular_speed1, n8)) => 
                                        match <u8 as Readable>::dec_v(s.skip(n1 + n2 + n3 + n4 + n5 + n6 + n7 + n8)) {
                                            None => None,
                                            Some((tyre_angular_speed2, n9)) => 
                                            match <u8 as Readable>::dec_v(s.skip(n1 + n2 + n3 + n4 + n5 + n6 + n7 + n8 + n9)) {
                                                None => None,
                                                Some((tyre_angular_speed3, n10)) => 
                                                match <u8 as Readable>::dec_v(s.skip(n1 + n2 + n3 + n4 + n5 + n6 + n7 + n8 + n9 + n10)) {
                                                    None => None,
                                                    Some((streer_angle, n11)) => 
                                                    match <u8 as Readable>::dec_v(s.skip(n1 + n2 + n3 + n4 + n5 + n6 + n7 + n8 + n9 + n10 + n11)) {
                                                        None => None,
                                                        Some((wheel_angle, n12)) => 
                                                        match <u16 as Readable>::dec_v(s.skip(n1 + n2 + n3 + n4 + n5 + n6 + n7 + n8 + n9 + n10 + n11 + n12)) {
                                                            None => None,
                                                            Some((engine_rpm, n13)) => 
                                                            match <u8 as Readable>::dec_v(s.skip(n1 + n2 + n3 + n4 + n5 + n6 + n7 + n8 + n9 + n10 + n11 + n12 + n13)) {
                                                                None => None,
                                                                Some((gear, n14)) => 
                                                                match <u32 as Readable>::dec_v(s.skip(n1 + n2 + n3 + n4 + n5 + n6 + n7 + n8 + n9 + n10 + n11 + n12 + n13 + n14)) {
                                                                    None => None,
                                                                    Some((status, n15)) => Some((PositionUpdate { car_id, pak_sequence_id, timestamp, pos, rotation, velocity, tyre_angular_speed, tyre_angular_speed1, tyre_angular_speed2, tyre_angular_speed3, streer_angle, wheel_angle, engine_rpm, gear, status }, n1 + n2 + n3 + n4 + n5 + n6 + n7 + n8 + n9 + n10 + n11 + n12 + n13 + n14 + n15)),
                                                                },
                                                            },
                                                        },
                                                    },
                                                },
                                            },
                                        },
                                    },
                                },
                            },
                        },
                    },
                },
            },
        }
    }

    open spec fn reads_to_end() -> bool {
        false
    }

    #[verifier::rlimit(100)]
    #[verifier::spinoff_prover]
    proof fn lemma_dec_sound(s: Seq<u8>) {
        <u8 as Readable>::lemma_dec_sound(s);
        if let Some((car_id, n1)) = <u8 as Readable>::dec_v(s) {
            <u8 as Readable>::lemma_dec_sound(s.skip(n1));
            if let Some((pak_sequence_id, n2)) = <u8 as Readable>::dec_v(s.skip(n1)) {
                <u32 as Readable>::lemma_dec_sound(s.skip(n1 + n2));
                if let Some((timestamp, n3)) = <u32 as Readable>::dec_v(s.skip(n1 + n2)) {
                    <Vec3f as Readable>::lemma_dec_sound(s.skip(n1 + n2 + n3));
                    if let Some((pos, n4)) = <Vec3f as Readable>::dec_v(s.skip(n1 + n2 + n3)) {
                        <Vec3f as Readable>::lemma_dec_sound(s.skip(n1 + n2 + n3 + n4));
                        if let Some((rotation, n5)) = <Vec3f as Readable>::dec_v(s.skip(n1 + n2 + n3 + n4)) {
                            <Vec3f as Readable>::lemma_dec_sound(s.skip(n1 + n2 + n3 + n4 + n5));
                            if let Some((velocity, n6)) = <Vec3f as Readable>::dec_v(s.skip(n1 + n2 + n3 + n4 + n5)) {
                                <u8 as Readable>::lemma_dec_sound(s.skip(n1 + n2 + n3 + n4 + n5 + n6));
                                if let Some((tyre_angular_speed, n7)) = <u8 as Readable>::dec_v(s.skip(n1 + n2 + n3 + n4 + n5 + n6)) {
                                    <u8 as Readable>::lemma_dec_sound(s.skip(n1 + n2 + n3 + n4 + n5 + n6 + n7));
                                    if let Some((tyre_angular_speed1, n8)) = <u8 as Readable>::dec_v(s.skip(n1 + n2 + n3 + n4 + n5 + n6 + n7)) {
                                        <u8 as Readable>::lemma_dec_sound(s.skip(n1 + n2 + n3 + n4 + n5 + n6 + n7 + n8));
                                        if let Some((tyre_angular_speed2, n9)) = <u8 as Readable>::dec_v(s.skip(n1 + n2 + n3 + n4 + n5 + n6 + n7 + n8)) {
                                            <u8 as Readable>::lemma_dec_sound(s.skip(n1 + n2 + n3 + n4 + n5 + n6 + n7 + n8 + n9));
                                            if let Some((tyre_angular_speed3, n10)) = <u8 as Readable>::dec_v(s.skip(n1 + n2 + n3 + n4 + n5 + n6 + n7 + n8 + n9)) {
                                                <u8 as Readable>::lemma_dec_sound(s.skip(n1 + n2 + n3 + n4 + n5 + n6 + n7 + n8 + n9 + n10));
                                                if let Some((streer_angle, n11)) = <u8 as Readable>::dec_v(s.skip(n1 + n2 + n3 + n4 + n5 + n6 + n7 + n8 + n9 + n10)) {
                                                    <u8 as Readable>::lemma_dec_sound(s.skip(n1 + n2 + n3 + n4 + n5 + n6 + n7 + n8 + n9 + n10 + n11));
                                                    if let Some((wheel_angle, n12)) = <u8 as Readable>::dec_v(s.skip(n1 + n2 + n3 + n4 + n5 + n6 + n7 + n8 + n9 + n10 + n11)) {
                                                        <u16 as Readable>::lemma_dec_sound(s.skip(n1 + n2 + n3 + n4 + n5 + n6 + n7 + n8 + n9 + n10 + n11 + n12));
                                                        if let Some((engine_rpm, n13)) = <u16 as Readable>::dec_v(s.skip(n1 + n2 + n3 + n4 + n5 + n6 + n7 + n8 + n9 + n10 + n11 + n12)) {
                                                            <u8 as Readable>::lemma_dec_sound(s.skip(n1 + n2 + n3 + n4 + n5 + n6 + n7 + n8 + n9 + n10 + n11 + n12 + n13));
                                                            if let Some((gear, n14)) = <u8 as Readable>::dec_v(s.skip(n1 + n2 + n3 + n4 + n5 + n6 + n7 + n8 + n9 + n10 + n11 + n12 + n13)) {
                                                                <u32 as Readable>::lemma_dec_sound(s.skip(n1 + n2 + n3 + n4 + n5 + n6 + n7 + n8 + n9 + n10 + n11 + n12 + n13 + n14));
                                                                if let Some((status, n15)) = <u32 as Readable>::dec_v(s.skip(n1 + n2 + n3 + n4 + n5 + n6 + n7 + n8 + n9 + n10 + n11 + n12 + n13 + n14)) {
                                                                    assert(s.take(n1) + s.skip(n1).take(n2) =~= s.take(n1 + n2));
                                                                    assert(s.take(n1 + n2) + s.skip(n1 + n2).take(n3) =~= s.take(n1 + n2 + n3));
                                                                    assert(s.take(n1 + n2 + n3) + s.skip(n1 + n2 + n3).take(n4) =~= s.take(n1 + n2 + n3 + n4));
                                                                    assert(s.take(n1 + n2 + n3 + n4) + s.skip(n1 + n2 + n3 + n4).take(n5) =~= s.take(n1 + n2 + n3 + n4 + n5));
                                                                    assert(s.take(n1 + n2 + n3 + n4 + n5) + s.skip(n1 + n2 + n3 + n4 + n5).take(n6) =~= s.take(n1 + n2 + n3 + n4 + n5 + n6));
                                                                    assert(s.take(n1 + n2 + n3 + n4 + n5 + n6) + s.skip(n1 + n2 + n3 + n4 + n5 + n6).take(n7) =~= s.take(n1 + n2 + n3 + n4 + n5 + n6 + n7));
                                                                    assert(s.take(n1 + n2 + n3 + n4 + n5 + n6 + n7) + s.skip(n1 + n2 + n3 + n4 + n5 + n6 + n7).take(n8) =~= s.take(n1 + n2 + n3 + n4 + n5 + n6 + n7 + n8));
                                                                    assert(s.take(n1 + n2 + n3 + n4 + n5 + n6 + n7 + n8) + s.skip(n1 + n2 + n3 + n4 + n5 + n6 + n7 + n8).take(n9) =~= s.take(n1 + n2 + n3 + n4 + n5 + n6 + n7 + n8 + n9));
                                                                    assert(s.take(n1 + n2 + n3 + n4 + n5 + n6 + n7 + n8 + n9) + s.skip(n1 + n2 + n3 + n4 + n5 + n6 + n7 + n8 + n9).take(n10) =~= s.take(n1 + n2 + n3 + n4 + n5 + n6 + n7 + n8 + n9 + n10));
                                                                    assert(s.take(n1 + n2 + n3 + n4 + n5 + n6 + n7 + n8 + n9 + n10) + s.skip(n1 + n2 + n3 + n4 + n5 + n6 + n7 + n8 + n9 + n10).take(n11) =~= s.take(n1 + n2 + n3 + n4 + n5 + n6 + n7 + n8 + n9 + n10 + n11));
                                                                    assert(s.take(n1 + n2 + n3 + n4 + n5 + n6 + n7 + n8 + n9 + n10 + n11) + s.skip(n1 + n2 + n3 + n4 + n5 + n6 + n7 + n8 + n9 + n10 + n11).take(n12) =~= s.take(n1 + n2 + n3 + n4 + n5 + n6 + n7 + n8 + n9 + n10 + n11 + n12));
                                                                    assert(s.take(n1 + n2 + n3 + n4 + n5 + n6 + n7 + n8 + n9 + n10 + n11 + n12) + s.skip(n1 + n2 + n3 + n4 + n5 + n6 + n7 + n8 + n9 + n10 + n11 + n12).take(n13) =~= s.take(n1 + n2 + n3 + n4 + n5 + n6 + n7 + n8 + n9 + n10 + n11 + n12 + n13));
                                                                    assert(s.take(n1 + n2 + n3 + n4 + n5 + n6 + n7 + n8 + n9 + n10 + n11 + n12 + n13) + s.skip(n1 + n2 + n3 + n4 + n5 + n6 + n7 + n8 + n9 + n10 + n11 + n12 + n13).take(n14) =~= s.take(n1 + n2 + n3 + n4 + n5 + n6 + n7 + n8 + n9 + n10 + n11 + n12 + n13 + n14));
                                                                    assert(s.take(n1 + n2 + n3 + n4 + n5 + n6 + n7 + n8 + n9 + n10 + n11 + n12 + n13 + n14) + s.skip(n1 + n2 + n3 + n4 + n5 + n6 + n7 + n8 + n9 + n10 + n11 + n12 + n13 + n14).take(n15) =~= s.take(n1 + n2 + n3 + n4 + n5 + n6 + n7 + n8 + n9 + n10 + n11 + n12 + n13 + n14 + n15));
                                                                }
                                                            }
                                                        }
                                                    }
                                                }
                                            }
                                        }
                                    }
                                }
                            }
                        }
                    }
                }
            }
        }
    }

    #[verifier::rlimit(100)]
    #[verifier::spinoff_prover]
    proof fn lemma_dec_complete(w: PositionUpdate, rest: Seq<u8>) {
        let e1 = <u8 as Writeable>::enc_v(w.car_id);
        let e2 = <u8 as Writeable>::enc_v(w.pak_sequence_id);
        let e3 = <u32 as Writeable>::enc_v(w.timestamp);
        let e4 = <Vec3f as Writeable>::enc_v(w.pos);
        let e5 = <Vec3f as Writeable>::enc_v(w.rotation);
        let e6 = <Vec3f as Writeable>::enc_v(w.velocity);
        let e7 = <u8 as Writeable>::enc_v(w.tyre_angular_speed);
        let e8 = <u8 as Writeable>::enc_v(w.tyre_angular_speed1);
        let e9 = <u8 as Writeable>::enc_v(w.tyre_angular_speed2);
        let e10 = <u8 as Writeable>::enc_v(w.tyre_angular_speed3);
        let e11 = <u8 as Writeable>::enc_v(w.streer_angle);
        let e12 = <u8 as Writeable>::enc_v(w.wheel_angle);
        let e13 = <u16 as Writeable>::enc_v(w.engine_rpm);
        let e14 = <u8 as Writeable>::enc_v(w.gear);
        let e15 = <u32 as Writeable>::enc_v(w.status);
        let r15 = rest;
        let r14 = e15 + r15;
        let r13 = e14 + r14;
        let r12 = e13 + r13;
        let r11 = e12 + r12;
        let r10 = e11 + r11;
        let r9 = e10 + r10;
        let r8 = e9 + r9;
        let r7 = e8 + r8;
        let r6 = e7 + r7;
        let r5 = e6 + r6;
        let r4 = e5 + r5;
        let r3 = e4 + r4;
        let r2 = e3 + r3;
        let r1 = e2 + r2;
        let s = Self::enc_v(w) + rest;
        assert(s =~= e1 + r1);
        <u8 as Readable>::lemma_dec_complete(w.car_id, r1);
        lemma_skip_concat(e1, r1);
        <u8 as Readable>::lemma_dec_complete(w.pak_sequence_id, r2);
        lemma_skip_concat(e2, r2);
        lemma_skip_skip(s, (e1.len()) as int, e2.len() as int);
        <u32 as Readable>::lemma_dec_complete(w.timestamp, r3);
        lemma_skip_concat(e3, r3);
        lemma_skip_skip(s, (e1.len() + e2.len()) as int, e3.len() as int);
        <Vec3f as Readable>::lemma_dec_complete(w.pos, r4);
        lemma_skip_concat(e4, r4);
        lemma_skip_skip(s, (e1.len() + e2.len() + e3.len()) as int, e4.len() as int);
        <Vec3f as Readable>::lemma_dec_complete(w.rotation, r5);
        lemma_skip_concat(e5, r5);
        lemma_skip_skip(s, (e1.len() + e2.len() + e3.len() + e4.len()) as int, e5.len() as int);
        <Vec3f as Readable>::lemma_dec_complete(w.velocity, r6);
        lemma_skip_concat(e6, r6);
        lemma_skip_skip(s, (e1.len() + e2.len() + e3.len() + e4.len() + e5.len()) as int, e6.len() as int);
        <u8 as Readable>::lemma_dec_complete(w.tyre_angular_speed, r7);
        lemma_skip_concat(e7, r7);
        lemma_skip_skip(s, (e1.len() + e2.len() + e3.len() + e4.len() + e5.len() + e6.len()) as int, e7.len() as int);
        <u8 as Readable>::lemma_dec_complete(w.tyre_angular_speed1, r8);
        lemma_skip_concat(e8, r8);
        lemma_skip_skip(s, (e1.len() + e2.len() + e3.len() + e4.len() + e5.len() + e6.len() + e7.len()) as int, e8.len() as int);
        <u8 as Readable>::lemma_dec_complete(w.tyre_angular_speed2, r9);
        lemma_skip_concat(e9, r9);
        lemma_skip_skip(s, (e1.len() + e2.len() + e3.len() + e4.len() + e5.len() + e6.len() + e7.len() + e8.len()) as int, e9.len() as int);
        <u8 as Readable>::lemma_dec_complete(w.tyre_angular_speed3, r10);
        lemma_skip_concat(e10, r10);
        lemma_skip_skip(s, (e1.len() + e2.len() + e3.len() + e4.len() + e5.len() + e6.len() + e7.len() + e8.len() + e9.len()) as int, e10.len() as int);
        <u8 as Readable>::lemma_dec_complete(w.streer_angle, r11);
        lemma_skip_concat(e11, r11);
        lemma_skip_skip(s, (e1.len() + e2.len() + e3.len() + e4.len() + e5.len() + e6.len() + e7.len() + e8.len() + e9.len() + e10.len()) as int, e11.len() as int);
        <u8 as Readable>::lemma_dec_complete(w.wheel_angle, r12);
        lemma_skip_concat(e12, r12);
        lemma_skip_skip(s, (e1.len() + e2.len() + e3.len() + e4.len() + e5.len() + e6.len() + e7.len() + e8.len() + e9.len() + e10.len() + e11.len()) as int, e12.len() as int);
        <u16 as Readable>::lemma_dec_complete(w.engine_rpm, r13);
        lemma_skip_concat(e13, r13);
        lemma_skip_skip(s, (e1.len() + e2.len() + e3.len() + e4.len() + e5.len() + e6.len() + e7.len() + e8.len() + e9.len() + e10.len() + e11.len() + e12.len()) as int, e13.len() as int);
        <u8 as Readable>::lemma_dec_complete(w.gear, r14);
        lemma_skip_concat(e14, r14);
        lemma_skip_skip(s, (e1.len() + e2.len() + e3.len() + e4.len() + e5.len() + e6.len() + e7.len() + e8.len() + e9.len() + e10.len() + e11.len() + e12.len() + e13.len()) as int, e14.len() as int);
        <u32 as Readable>::lemma_dec_complete(w.status, r15);
        lemma_skip_concat(e15, r15);
        lemma_skip_skip(s, (e1.len() + e2.len() + e3.len() + e4.len() + e5.len() + e6.len() + e7.len() + e8.len() + e9.len() + e10.len() + e11.len() + e12.len() + e13.len() + e14.len()) as int, e15.len() as int);
    }

    #[verifier::rlimit(100)]
    #[verifier::spinoff_prover]
    fn read(buf: &[u8], pos: &mut usize) -> (r: Result<PositionUpdate, Error>) {
        let ghost s = buf@.skip(*pos as int);
        let ghost p0 = *pos;
        let f_car_id = match <u8 as Readable>::read(buf, pos) {
            Ok(v) => v,
            Err(e) => {
                return Err(e);
            },
        };
        assert(buf@.skip(*pos as int) =~= s.skip(*pos - p0));
        let f_pak_sequence_id = match <u8 as Readable>::read(buf, pos) {
            Ok(v) => v,
            Err(e) => {
                return Err(e);
            },
        };
        assert(buf@.skip(*pos as int) =~= s.skip(*pos - p0));
        let f_timestamp = match <u32 as Readable>::read(buf, pos) {
            Ok(v) => v,
            Err(e) => {
                return Err(e);
            },
        };
        assert(buf@.skip(*pos as int) =~= s.skip(*pos - p0));
        let f_pos = match <Vec3f as Readable>::read(buf, pos) {
            Ok(v) => v,
            Err(e) => {
                return Err(e);
            },
        };
        assert(buf@.skip(*pos as int) =~= s.skip(*pos - p0));
        let f_rotation = match <Vec3f as Readable>::read(buf, pos) {
            Ok(v) => v,
            Err(e) => {
                return Err(e);
            },
        };
        assert(buf@.skip(*pos as int) =~= s.skip(*pos - p0));
        let f_velocity = match <Vec3f as Readable>::read(buf, pos) {
            Ok(v) => v,
            Err(e) => {
                return Err(e);
            },
        };
        assert(buf@.skip(*pos as int) =~= s.skip(*pos - p0));
        let f_tyre_angular_speed = match <u8 as Readable>::read(buf, pos) {
            Ok(v) => v,
            Err(e) => {
                return Err(e);
            },
        };
        assert(buf@.skip(*pos as int) =~= s.skip(*pos - p0));
        let f_tyre_angular_speed1 = match <u8 as Readable>::read(buf, pos) {
            Ok(v) => v,
            Err(e) => {
                return Err(e);
            },
        };
        assert(buf@.skip(*pos as int) =~= s.skip(*pos - p0));
        let f_tyre_angular_speed2 = match <u8 as Readable>::read(buf, pos) {
            Ok(v) => v,
            Err(e) => {
                return Err(e);
            },
        };
        assert(buf@.skip(*pos as int) =~= s.skip(*pos - p0));
        let f_tyre_angular_speed3 = match <u8 as Readable>::read(buf, pos) {
            Ok(v) => v,
            Err(e) => {
                return Err(e);
            },
        };
        assert(buf@.skip(*pos as int) =~= s.skip(*pos - p0));
        let f_streer_angle = match <u8 as Readable>::read(buf, pos) {
            Ok(v) => v,
            Err(e) => {
                return Err(e);
            },
        };
        assert(buf@.skip(*pos as int) =~= s.skip(*pos - p0));
        let f_wheel_angle = match <u8 as Readable>::read(buf, pos) {
            Ok(v) => v,
            Err(e) => {
                return Err(e);
            },
        };
        assert(buf@.skip(*pos as int) =~= s.skip(*pos - p0));
        let f_engine_rpm = match <u16 as Readable>::read(buf, pos) {
            Ok(v) => v,
            Err(e) => {
                return Err(e);
            },
        };
        assert(buf@.skip(*pos as int) =~= s.skip(*pos - p0));
        let f_gear = match <u8 as Readable>::read(buf, pos) {
            Ok(v) => v,
            Err(e) => {
                return Err(e);
            },
        };
        assert(buf@.skip(*pos as int) =~= s.skip(*pos - p0));
        let f_status = match <u32 as Readable>::read(buf, pos) {
            Ok(v) => v,
            Err(e) => {
                return Err(e);
            },
        };
        let v = PositionUpdate { car_id: f_car_id, pak_sequence_id: f_pak_sequence_id, timestamp: f_timestamp, pos: f_pos, rotation: f_rotation, velocity: f_velocity, tyre_angular_speed: f_tyre_angular_speed, tyre_angular_speed1: f_tyre_angular_speed1, tyre_angular_speed2: f_tyre_angular_speed2, tyre_angular_speed3: f_tyre_angular_speed3, streer_angle: f_streer_angle, wheel_angle: f_wheel_angle, engine_rpm: f_engine_rpm, gear: f_gear, status: f_status };
        Ok(v)
    }
}

/// The first block of the welcome frame: the server name, port and
/// tickrate, the track, and the car assigned to the new client.
#[derive(Debug, Clone, PartialEq)]
pub struct WelcomeServerInfo {
    pub server_name: WideString,
    pub server_port: u16,
    pub tickrate: u8,
    pub track: ByteString,
    pub track_config: ByteString,
    pub car_model: ByteString,
    pub car_skin: ByteString,
}

/// The mathematical view of [`WelcomeServerInfo`].
#[verifier::ext_equal]
pub struct WelcomeServerInfoView {
    pub server_name: Seq<u32>,
    pub server_port: u16,
    pub tickrate: u8,
    pub track: Seq<u8>,
    pub track_config: Seq<u8>,
    pub car_model: Seq<u8>,
    pub car_skin: Seq<u8>,
}

impl View for WelcomeServerInfo {
    type V = WelcomeServerInfoView;

    open spec fn view(&self) -> WelcomeServerInfoView {
        WelcomeServerInfoView {
            server_name: self.server_name@,
            server_port: self.server_port,
            tickrate: self.tickrate,
            track: self.track@,
            track_config: self.track_config@,
            car_model: self.car_model@,
            car_skin: self.car_skin@,
        }
    }
}

impl Writeable for WelcomeServerInfo {
    open spec fn wf_v(w: WelcomeServerInfoView) -> bool {
        &&& <WideString as Writeable>::wf_v(w.server_name)
        &&& <ByteString as Writeable>::wf_v(w.track)
        &&& <ByteString as Writeable>::wf_v(w.track_config)
        &&& <ByteString as Writeable>::wf_v(w.car_model)
        &&& <ByteString as Writeable>::wf_v(w.car_skin)
    }

    open spec fn enc_v(w: WelcomeServerInfoView) -> Seq<u8> {
        <WideString as Writeable>::enc_v(w.server_name) + <u16 as Writeable>::enc_v(w.server_port) + <u8 as Writeable>::enc_v(w.tickrate) + <ByteString as Writeable>::enc_v(w.track) + <ByteString as Writeable>::enc_v(w.track_config) + <ByteString as Writeable>::enc_v(w.car_model) + <ByteString as Writeable>::enc_v(w.car_skin)
    }

    #[verifier::rlimit(100)]
    #[verifier::spinoff_prover]
    fn write(&self, buffer: &mut Vec<u8>) {
        self.server_name.write(buffer);
        self.server_port.write(buffer);
        self.tickrate.write(buffer);
        self.track.write(buffer);
        self.track_config.write(buffer);
        self.car_model.write(buffer);
        self.car_skin.write(buffer);
        assert(buffer@ =~= old(buffer)@ + Self::enc_v(self@));
    }
}

impl Readable for WelcomeServerInfo {
    open spec fn dec_v(s: Seq<u8>) -> Option<(WelcomeServerInfoView, int)> {
        match <WideString as Readable>::dec_v(s) {
            None => None,
            Some((server_name, n1)) => 
            match <u16 as Readable>::dec_v(s.skip(n1)) {
                None => None,
                Some((server_port, n2)) => 
                match <u8 as Readable>::dec_v(s.skip(n1 + n2)) {
                    None => None,
                    Some((tickrate, n3)) => 
                    match <ByteString as Readable>::dec_v(s.skip(n1 + n2 + n3)) {
                        None => None,
                        Some((track, n4)) => 
                        match <ByteString as Readable>::dec_v(s.skip(n1 + n2 + n3 + n4)) {
                            None => None,
                            Some((track_config, n5)) => 
                            match <ByteString as Readable>::dec_v(s.skip(n1 + n2 + n3 + n4 + n5)) {
                                None => None,
                                Some((car_model, n6)) => 
                                match <ByteString as Readable>::dec_v(s.skip(n1 + n2 + n3 + n4 + n5 + n6)) {
                                    None => None,
                                    Some((car_skin, n7)) => Some((WelcomeServerInfoView { server_name, server_port, tickrate, track, track_config, car_model, car_skin }, n1 + n2 + n3 + n4 + n5 + n6 + n7)),
                                },
                            },
                        },
                    },
                },
            },
        }
    }

    open spec fn reads_to_end() -> bool {
        false
    }

    #[verifier::rlimit(100)]
    #[verifier::spinoff_prover]
    proof fn lemma_dec_sound(s: Seq<u8>) {
        <WideString as Readable>::lemma_dec_sound(s);
        if let Some((server_name, n1)) = <WideString as Readable>::dec_v(s) {
            <u16 as Readable>::lemma_dec_sound(s.skip(n1));
            if let Some((server_port, n2)) = <u16 as Readable>::dec_v(s.skip(n1)) {
                <u8 as Readable>::lemma_dec_sound(s.skip(n1 + n2));
                if let Some((tickrate, n3)) = <u8 as Readable>::dec_v(s.skip(n1 + n2)) {
                    <ByteString as Readable>::lemma_dec_sound(s.skip(n1 + n2 + n3));
                    if let Some((track, n4)) = <ByteString as Readable>::dec_v(s.skip(n1 + n2 + n3)) {
                        <ByteString as Readable>::lemma_dec_sound(s.skip(n1 + n2 + n3 + n4));
                        if let Some((track_config, n5)) = <ByteString as Readable>::dec_v(s.skip(n1 + n2 + n3 + n4)) {
                            <ByteString as Readable>::lemma_dec_sound(s.skip(n1 + n2 + n3 + n4 + n5));
                            if let Some((car_model, n6)) = <ByteString as Readable>::dec_v(s.skip(n1 + n2 + n3 + n4 + n5)) {
                                <ByteString as Readable>::lemma_dec_sound(s.skip(n1 + n2 + n3 + n4 + n5 + n6));
                                if let Some((car_skin, n7)) = <ByteString as Readable>::dec_v(s.skip(n1 + n2 + n3 + n4 + n5 + n6)) {
                                    assert(s.take(n1) + s.skip(n1).take(n2) =~= s.take(n1 + n2));
                                    assert(s.take(n1 + n2) + s.skip(n1 + n2).take(n3) =~= s.take(n1 + n2 + n3));
                                    assert(s.take(n1 + n2 + n3) + s.skip(n1 + n2 + n3).take(n4) =~= s.take(n1 + n2 + n3 + n4));
                                    assert(s.take(n1 + n2 + n3 + n4) + s.skip(n1 + n2 + n3 + n4).take(n5) =~= s.take(n1 + n2 + n3 + n4 + n5));
                                    assert(s.take(n1 + n2 + n3 + n4 + n5) + s.skip(n1 + n2 + n3 + n4 + n5).take(n6) =~= s.take(n1 + n2 + n3 + n4 + n5 + n6));
                                    assert(s.take(n1 + n2 + n3 + n4 + n5 + n6) + s.skip(n1 + n2 + n3 + n4 + n5 + n6).take(n7) =~= s.take(n1 + n2 + n3 + n4 + n5 + n6 + n7));
                                }
                            }
                        }
                    }
                }
            }
        }
    }

    #[verifier::rlimit(100)]
    #[verifier::spinoff_prover]
    proof fn lemma_dec_complete(w: WelcomeServerInfoView, rest: Seq<u8>) {
        let e1 = <WideString as Writeable>::enc_v(w.server_name);
        let e2 = <u16 as Writeable>::enc_v(w.server_port);
        let e3 = <u8 as Writeable>::enc_v(w.tickrate);
        let e4 = <ByteString as Writeable>::enc_v(w.track);
        let e5 = <ByteString as Writeable>::enc_v(w.track_config);
        let e6 = <ByteString as Writeable>::enc_v(w.car_model);
        let e7 = <ByteString as Writeable>::enc_v(w.car_skin);
        let r7 = rest;
        let r6 = e7 + r7;
        let r5 = e6 + r6;
        let r4 = e5 + r5;
        let r3 = e4 + r4;
        let r2 = e3 + r3;
        let r1 = e2 + r2;
        let s = Self::enc_v(w) + rest;
        assert(s =~= e1 + r1);
        <WideString as Readable>::lemma_dec_complete(w.server_name, r1);
        lemma_skip_concat(e1, r1);
        <u16 as Readable>::lemma_dec_complete(w.server_port, r2);
        lemma_skip_concat(e2, r2);
        lemma_skip_skip(s, (e1.len()) as int, e2.len() as int);
        <u8 as Readable>::lemma_dec_complete(w.tickrate, r3);
        lemma_skip_concat(e3, r3);
        lemma_skip_skip(s, (e1.len() + e2.len()) as int, e3.len() as int);
        <ByteString as Readable>::lemma_dec_complete(w.track, r4);
        lemma_skip_concat(e4, r4);
        lemma_skip_skip(s, (e1.len() + e2.len() + e3.len()) as int, e4.len() as int);
        <ByteString as Readable>::lemma_dec_complete(w.track_config, r5);
        lemma_skip_concat(e5, r5);
        lemma_skip_skip(s, (e1.len() + e2.len() + e3.len() + e4.len()) as int, e5.len() as int);
        <ByteString as Readable>::lemma_dec_complete(w.car_model, r6);
        lemma_skip_concat(e6, r6);
        lemma_skip_skip(s, (e1.len() + e2.len() + e3.len() + e4.len() + e5.len()) as int, e6.len() as int);
        <ByteString as Readable>::lemma_dec_complete(w.car_skin, r7);
        lemma_skip_concat(e7, r7);
        lemma_skip_skip(s, (e1.len() + e2.len() + e3.len() + e4.len() + e5.len() + e6.len()) as int, e7.len() as int);
    }

    #[verifier::rlimit(100)]
    #[verifier::spinoff_prover]
    fn read(buf: &[u8], pos: &mut usize) -> (r: Result<WelcomeServerInfo, Error>) {
        let ghost s = buf@.skip(*pos as int);
        let ghost p0 = *pos;
        let f_server_name = match <WideString as Readable>::read(buf, pos) {
            Ok(v) => v,
            Err(e) => {
                return Err(e);
            },
        };
        assert(buf@.skip(*pos as int) =~= s.skip(*pos - p0));
        let f_server_port = match <u16 as Readable>::read(buf, pos) {
            Ok(v) => v,
            Err(e) => {
                return Err(e);
            },
        };
        assert(buf@.skip(*pos as int) =~= s.skip(*pos - p0));
        let f_tickrate = match <u8 as Readable>::read(buf, pos) {
            Ok(v) => v,
            Err(e) => {
                return Err(e);
            },
        };
        assert(buf@.skip(*pos as int) =~= s.skip(*pos - p0));
        let f_track = match <ByteString as Readable>::read(buf, pos) {
            Ok(v) => v,
            Err(e) => {
                return Err(e);
            },
        };
        assert(buf@.skip(*pos as int) =~= s.skip(*pos - p0));
        let f_track_config = match <ByteString as Readable>::read(buf, pos) {
            Ok(v) => v,
            Err(e) => {
                return Err(e);
            },
        };
        assert(buf@.skip(*pos as int) =~= s.skip(*pos - p0));
        let f_car_model = match <ByteString as Readable>::read(buf, pos) {
            Ok(v) => v,
            Err(e) => {
                return Err(e);
            },
        };
        assert(buf@.skip(*pos as int) =~= s.skip(*pos - p0));
        let f_car_skin = match <ByteString as Readable>::read(buf, pos) {
            Ok(v) => v,
            Err(e) => {
                return Err(e);
            },
        };
        let v = WelcomeServerInfo { server_name: f_server_name, server_port: f_server_port, tickrate: f_tickrate, track: f_track, track_config: f_track_config, car_model: f_car_model, car_skin: f_car_skin };
        assert(v@ =~= WelcomeServerInfoView { server_name: f_server_name@, server_port: f_server_port, tickrate: f_tickrate, track: f_track@, track_config: f_track_config@, car_model: f_car_model@, car_skin: f_car_skin@ });
        Ok(v)
    }
}

/// The second block of the welcome frame: the sun angle, the allowed
/// tyres and the driving aids.
#[derive(Debug, Clone, Copy, PartialEq, Eq, Structural)]
pub struct WelcomeAssists {
    pub sun_angle: F32,
    pub allowed_tyres: i16,
    pub tyre_blankets_allowed: bool,
    pub tc_allowed: OnOffFactoryOption,
    pub abs_allowed: OnOffFactoryOption,
    pub stability_allowed: bool,
    pub autoclutch_allowed: bool,
}

impl View for WelcomeAssists {
    type V = WelcomeAssists;

    open spec fn view(&self) -> WelcomeAssists {
        *self
    }
}

impl Writeable for WelcomeAssists {
    open spec fn wf_v(w: WelcomeAssists) -> bool {
        true
    }

    open spec fn enc_v(w: WelcomeAssists) -> Seq<u8> {
        <F32 as Writeable>::enc_v(w.sun_angle) + <i16 as Writeable>::enc_v(w.allowed_tyres) + <bool as Writeable>::enc_v(w.tyre_blankets_allowed) + <OnOffFactoryOption as Writeable>::enc_v(w.tc_allowed) + <OnOffFactoryOption as Writeable>::enc_v(w.abs_allowed) + <bool as Writeable>::enc_v(w.stability_allowed) + <bool as Writeable>::enc_v(w.autoclutch_allowed)
    }

    #[verifier::rlimit(100)]
    #[verifier::spinoff_prover]
    fn write(&self, buffer: &mut Vec<u8>) {
        self.sun_angle.write(buffer);
        self.allowed_tyres.write(buffer);
        self.tyre_blankets_allowed.write(buffer);
        self.tc_allowed.write(buffer);
        self.abs_allowed.write(buffer);
        self.stability_allowed.write(buffer);
        self.autoclutch_allowed.write(buffer);
        assert(buffer@ =~= old(buffer)@ + Self::enc_v(self@));
    }
}

impl Readable for WelcomeAssists {
    open spec fn dec_v(s: Seq<u8>) -> Option<(WelcomeAssists, int)> {
        match <F32 as Readable>::dec_v(s) {
            None => None,
            Some((sun_angle, n1)) => 
            match <i16 as Readable>::dec_v(s.skip(n1)) {
                None => None,
                Some((allowed_tyres, n2)) => 
                match <bool as Readable>::dec_v(s.skip(n1 + n2)) {
                    None => None,
                    Some((tyre_blankets_allowed, n3)) => 
                    match <OnOffFactoryOption as Readable>::dec_v(s.skip(n1 + n2 + n3)) {
                        None => None,
                        Some((tc_allowed, n4)) => 
                        match <OnOffFactoryOption as Readable>::dec_v(s.skip(n1 + n2 + n3 + n4)) {
                            None => None,
                            Some((abs_allowed, n5)) => 
                            match <bool as Readable>::dec_v(s.skip(n1 + n2 + n3 + n4 + n5)) {
                                None => None,
                                Some((stability_allowed, n6)) => 
                                match <bool as Readable>::dec_v(s.skip(n1 + n2 + n3 + n4 + n5 + n6)) {
                                    None => None,
                                    Some((autoclutch_allowed, n7)) => Some((WelcomeAssists { sun_angle, allowed_tyres, tyre_blankets_allowed, tc_allowed, abs_allowed, stability_allowed, autoclutch_allowed }, n1 + n2 + n3 + n4 + n5 + n6 + n7)),
                                },
                            },
                        },
                    },
                },
            },
        }
    }

    open spec fn reads_to_end() -> bool {
        false
    }

    #[verifier::rlimit(100)]
    #[verifier::spinoff_prover]
    proof fn lemma_dec_sound(s: Seq<u8>) {
        <F32 as Readable>::lemma_dec_sound(s);
        if let Some((sun_angle, n1)) = <F32 as Readable>::dec_v(s) {
            <i16 as Readable>::lemma_dec_sound(s.skip(n1));
            if let Some((allowed_tyres, n2)) = <i16 as Readable>::dec_v(s.skip(n1)) {
                <bool as Readable>::lemma_dec_sound(s.skip(n1 + n2));
                if let Some((tyre_blankets_allowed, n3)) = <bool as Readable>::dec_v(s.skip(n1 + n2)) {
                    <OnOffFactoryOption as Readable>::lemma_dec_sound(s.skip(n1 + n2 + n3));
                    if let Some((tc_allowed, n4)) = <OnOffFactoryOption as Readable>::dec_v(s.skip(n1 + n2 + n3)) {
                        <OnOffFactoryOption as Readable>::lemma_dec_sound(s.skip(n1 + n2 + n3 + n4));
                        if let Some((abs_allowed, n5)) = <OnOffFactoryOption as Readable>::dec_v(s.skip(n1 + n2 + n3 + n4)) {
                            <bool as Readable>::lemma_dec_sound(s.skip(n1 + n2 + n3 + n4 + n5));
                            if let Some((stability_allowed, n6)) = <bool as Readable>::dec_v(s.skip(n1 + n2 + n3 + n4 + n5)) {
                                <bool as Readable>::lemma_dec_sound(s.skip(n1 + n2 + n3 + n4 + n5 + n6));
                                if let Some((autoclutch_allowed, n7)) = <bool as Readable>::dec_v(s.skip(n1 + n2 + n3 + n4 + n5 + n6)) {
                                    assert(s.take(n1) + s.skip(n1).take(n2) =~= s.take(n1 + n2));
                                    assert(s.take(n1 + n2) + s.skip(n1 + n2).take(n3) =~= s.take(n1 + n2 + n3));
                                    assert(s.take(n1 + n2 + n3) + s.skip(n1 + n2 + n3).take(n4) =~= s.take(n1 + n2 + n3 + n4));
                                    assert(s.take(n1 + n2 + n3 + n4) + s.skip(n1 + n2 + n3 + n4).take(n5) =~= s.take(n1 + n2 + n3 + n4 + n5));
                                    assert(s.take(n1 + n2 + n3 + n4 + n5) + s.skip(n1 + n2 + n3 + n4 + n5).take(n6) =~= s.take(n1 + n2 + n3 + n4 + n5 + n6));
                                    assert(s.take(n1 + n2 + n3 + n4 + n5 + n6) + s.skip(n1 + n2 + n3 + n4 + n5 + n6).take(n7) =~= s.take(n1 + n2 + n3 + n4 + n5 + n6 + n7));
                                }
                            }
                        }
                    }
                }
            }
        }
    }

    #[verifier::rlimit(100)]
    #[verifier::spinoff_prover]
    proof fn lemma_dec_complete(w: WelcomeAssists, rest: Seq<u8>) {
        let e1 = <F32 as Writeable>::enc_v(w.sun_angle);
        let e2 = <i16 as Writeable>::enc_v(w.allowed_tyres);
        let e3 = <bool as Writeable>::enc_v(w.tyre_blankets_allowed);
        let e4 = <OnOffFactoryOption as Writeable>::enc_v(w.tc_allowed);
        let e5 = <OnOffFactoryOption as Writeable>::enc_v(w.abs_allowed);
        let e6 = <bool as Writeable>::enc_v(w.stability_allowed);
        let e7 = <bool as Writeable>::enc_v(w.autoclutch_allowed);
        let r7 = rest;
        let r6 = e7 + r7;
        let r5 = e6 + r6;
        let r4 = e5 + r5;
        let r3 = e4 + r4;
        let r2 = e3 + r3;
        let r1 = e2 + r2;
        let s = Self::enc_v(w) + rest;
        assert(s =~= e1 + r1);
        <F32 as Readable>::lemma_dec_complete(w.sun_angle, r1);
        lemma_skip_concat(e1, r1);
        <i16 as Readable>::lemma_dec_complete(w.allowed_tyres, r2);
        lemma_skip_concat(e2, r2);
        lemma_skip_skip(s, (e1.len()) as int, e2.len() as int);
        <bool as Readable>::lemma_dec_complete(w.tyre_blankets_allowed, r3);
        lemma_skip_concat(e3, r3);
        lemma_skip_skip(s, (e1.len() + e2.len()) as int, e3.len() as int);
        <OnOffFactoryOption as Readable>::lemma_dec_complete(w.tc_allowed, r4);
        lemma_skip_concat(e4, r4);
        lemma_skip_skip(s, (e1.len() + e2.len() + e3.len()) as int, e4.len() as int);
        <OnOffFactoryOption as Readable>::lemma_dec_complete(w.abs_allowed, r5);
        lemma_skip_concat(e5, r5);
        lemma_skip_skip(s, (e1.len() + e2.len() + e3.len() + e4.len()) as int, e5.len() as int);
        <bool as Readable>::lemma_dec_complete(w.stability_allowed, r6);
        lemma_skip_concat(e6, r6);
        lemma_skip_skip(s, (e1.len() + e2.len() + e3.len() + e4.len() + e5.len()) as int, e6.len() as int);
        <bool as Readable>::lemma_dec_complete(w.autoclutch_allowed, r7);
        lemma_skip_concat(e7, r7);
        lemma_skip_skip(s, (e1.len() + e2.len() + e3.len() + e4.len() + e5.len() + e6.len()) as int, e7.len() as int);
    }

    #[verifier::rlimit(100)]
    #[verifier::spinoff_prover]
    fn read(buf: &[u8], pos: &mut usize) -> (r: Result<WelcomeAssists, Error>) {
        let ghost s = buf@.skip(*pos as int);
        let ghost p0 = *pos;
        let f_sun_angle = match <F32 as Readable>::read(buf, pos) {
            Ok(v) => v,
            Err(e) => {
                return Err(e);
            },
        };
        assert(buf@.skip(*pos as int) =~= s.skip(*pos - p0));
        let f_allowed_tyres = match <i16 as Readable>::read(buf, pos) {
            Ok(v) => v,
            Err(e) => {
                return Err(e);
            },
        };
        assert(buf@.skip(*pos as int) =~= s.skip(*pos - p0));
        let f_tyre_blankets_allowed = match <bool as Readable>::read(buf, pos) {
            Ok(v) => v,
            Err(e) => {
                return Err(e);
            },
        };
        assert(buf@.skip(*pos as int) =~= s.skip(*pos - p0));
        let f_tc_allowed = match <OnOffFactoryOption as Readable>::read(buf, pos) {
            Ok(v) => v,
            Err(e) => {
                return Err(e);
            },
        };
        assert(buf@.skip(*pos as int) =~= s.skip(*pos - p0));
        let f_abs_allowed = match <OnOffFactoryOption as Readable>::read(buf, pos) {
            Ok(v) => v,
            Err(e) => {
                return Err(e);
            },
        };
        assert(buf@.skip(*pos as int) =~= s.skip(*pos - p0));
        let f_stability_allowed = match <bool as Readable>::read(buf, pos) {
            Ok(v) => v,
            Err(e) => {
                return Err(e);
            },
        };
        assert(buf@.skip(*pos as int) =~= s.skip(*pos - p0));
        let f_autoclutch_allowed = match <bool as Readable>::read(buf, pos) {
            Ok(v) => v,
            Err(e) => {
                return Err(e);
            },
        };
        let v = WelcomeAssists { sun_angle: f_sun_angle, allowed_tyres: f_allowed_tyres, tyre_blankets_allowed: f_tyre_blankets_allowed, tc_allowed: f_tc_allowed, abs_allowed: f_abs_allowed, stability_allowed: f_stability_allowed, autoclutch_allowed: f_autoclutch_allowed };
        Ok(v)
    }
}

/// The third block of the welcome frame: the start rule, the damage
/// and consumption rates, and the forced mirror.
#[derive(Debug, Clone, Copy, PartialEq, Eq, Structural)]
pub struct WelcomeHandicaps {
    pub start_rule: u8,
    pub damage_multiplier: F32,
    pub fuel_rate: F32,
    pub tyre_wear_rate: F32,
    pub force_mirror: bool,
}

impl View for WelcomeHandicaps {
    type V = WelcomeHandicaps;

    open spec fn view(&self) -> WelcomeHandicaps {
        *self
    }
}

impl Writeable for WelcomeHandicaps {
    open spec fn wf_v(w: WelcomeHandicaps) -> bool {
        true
    }

    open spec fn enc_v(w: WelcomeHandicaps) -> Seq<u8> {
        <u8 as Writeable>::enc_v(w.start_rule) + <F32 as Writeable>::enc_v(w.damage_multiplier) + <F32 as Writeable>::enc_v(w.fuel_rate) + <F32 as Writeable>::enc_v(w.tyre_wear_rate) + <bool as Writeable>::enc_v(w.force_mirror)
    }

    fn write(&self, buffer: &mut Vec<u8>) {
        self.start_rule.write(buffer);
        self.damage_multiplier.write(buffer);
        self.fuel_rate.write(buffer);
        self.tyre_wear_rate.write(buffer);
        self.force_mirror.write(buffer);
        assert(buffer@ =~= old(buffer)@ + Self::enc_v(self@));
    }
}

impl Readable for WelcomeHandicaps {
    open spec fn dec_v(s: Seq<u8>) -> Option<(WelcomeHandicaps, int)> {
        match <u8 as Readable>::dec_v(s) {
            None => None,
            Some((start_rule, n1)) => 
            match <F32 as Readable>::dec_v(s.skip(n1)) {
                None => None,
                Some((damage_multiplier, n2)) => 
                match <F32 as Readable>::dec_v(s.skip(n1 + n2)) {
                    None => None,
                    Some((fuel_rate, n3)) => 
                    match <F32 as Readable>::dec_v(s.skip(n1 + n2 + n3)) {
                        None => None,
                        Some((tyre_wear_rate, n4)) => 
                        match <bool as Readable>::dec_v(s.skip(n1 + n2 + n3 + n4)) {
                            None => None,
                            Some((force_mirror, n5)) => Some((WelcomeHandicaps { start_rule, damage_multiplier, fuel_rate, tyre_wear_rate, force_mirror }, n1 + n2 + n3 + n4 + n5)),
                        },
                    },
                },
            },
        }
    }

    open spec fn reads_to_end() -> bool {
        false
    }

    proof fn lemma_dec_sound(s: Seq<u8>) {
        <u8 as Readable>::lemma_dec_sound(s);
        if let Some((start_rule, n1)) = <u8 as Readable>::dec_v(s) {
            <F32 as Readable>::lemma_dec_sound(s.skip(n1));
            if let Some((damage_multiplier, n2)) = <F32 as Readable>::dec_v(s.skip(n1)) {
                <F32 as Readable>::lemma_dec_sound(s.skip(n1 + n2));
                if let Some((fuel_rate, n3)) = <F32 as Readable>::dec_v(s.skip(n1 + n2)) {
                    <F32 as Readable>::lemma_dec_sound(s.skip(n1 + n2 + n3));
                    if let Some((tyre_wear_rate, n4)) = <F32 as Readable>::dec_v(s.skip(n1 + n2 + n3)) {
                        <bool as Readable>::lemma_dec_sound(s.skip(n1 + n2 + n3 + n4));
                        if let Some((force_mirror, n5)) = <bool as Readable>::dec_v(s.skip(n1 + n2 + n3 + n4)) {
                            assert(s.take(n1) + s.skip(n1).take(n2) =~= s.take(n1 + n2));
                            assert(s.take(n1 + n2) + s.skip(n1 + n2).take(n3) =~= s.take(n1 + n2 + n3));
                            assert(s.take(n1 + n2 + n3) + s.skip(n1 + n2 + n3).take(n4) =~= s.take(n1 + n2 + n3 + n4));
                            assert(s.take(n1 + n2 + n3 + n4) + s.skip(n1 + n2 + n3 + n4).take(n5) =~= s.take(n1 + n2 + n3 + n4 + n5));
                        }
                    }
                }
            }
        }
    }

    proof fn lemma_dec_complete(w: WelcomeHandicaps, rest: Seq<u8>) {
        let e1 = <u8 as Writeable>::enc_v(w.start_rule);
        let e2 = <F32 as Writeable>::enc_v(w.damage_multiplier);
        let e3 = <F32 as Writeable>::enc_v(w.fuel_rate);
        let e4 = <F32 as Writeable>::enc_v(w.tyre_wear_rate);
        let e5 = <bool as Writeable>::enc_v(w.force_mirror);
        let r5 = rest;
        let r4 = e5 + r5;
        let r3 = e4 + r4;
        let r2 = e3 + r3;
        let r1 = e2 + r2;
        let s = Self::enc_v(w) + rest;
        assert(s =~= e1 + r1);
        <u8 as Readable>::lemma_dec_complete(w.start_rule, r1);
        lemma_skip_concat(e1, r1);
        <F32 as Readable>::lemma_dec_complete(w.damage_multiplier, r2);
        lemma_skip_concat(e2, r2);
        lemma_skip_skip(s, (e1.len()) as int, e2.len() as int);
        <F32 as Readable>::lemma_dec_complete(w.fuel_rate, r3);
        lemma_skip_concat(e3, r3);
        lemma_skip_skip(s, (e1.len() + e2.len()) as int, e3.len() as int);
        <F32 as Readable>::lemma_dec_complete(w.tyre_wear_rate, r4);
        lemma_skip_concat(e4, r4);
        lemma_skip_skip(s, (e1.len() + e2.len() + e3.len()) as int, e4.len() as int);
        <bool as Readable>::lemma_dec_complete(w.force_mirror, r5);
        lemma_skip_concat(e5, r5);
        lemma_skip_skip(s, (e1.len() + e2.len() + e3.len() + e4.len()) as int, e5.len() as int);
    }

    fn read(buf: &[u8], pos: &mut usize) -> (r: Result<WelcomeHandicaps, Error>) {
        let ghost s = buf@.skip(*pos as int);
        let ghost p0 = *pos;
        let f_start_rule = match <u8 as Readable>::read(buf, pos) {
            Ok(v) => v,
            Err(e) => {
                return Err(e);
            },
        };
        assert(buf@.skip(*pos as int) =~= s.skip(*pos - p0));
        let f_damage_multiplier = match <F32 as Readable>::read(buf, pos) {
            Ok(v) => v,
            Err(e) => {
                return Err(e);
            },
        };
        assert(buf@.skip(*pos as int) =~= s.skip(*pos - p0));
        let f_fuel_rate = match <F32 as Readable>::read(buf, pos) {
            Ok(v) => v,
            Err(e) => {
                return Err(e);
            },
        };
        assert(buf@.skip(*pos as int) =~= s.skip(*pos - p0));
        let f_tyre_wear_rate = match <F32 as Readable>::read(buf, pos) {
            Ok(v) => v,
            Err(e) => {
                return Err(e);
            },
        };
        assert(buf@.skip(*pos as int) =~= s.skip(*pos - p0));
        let f_force_mirror = match <bool as Readable>::read(buf, pos) {
            Ok(v) => v,
            Err(e) => {
                return Err(e);
            },
        };
        let v = WelcomeHandicaps { start_rule: f_start_rule, damage_multiplier: f_damage_multiplier, fuel_rate: f_fuel_rate, tyre_wear_rate: f_tyre_wear_rate, force_mirror: f_force_mirror };
        Ok(v)
    }
}

/// The third block of the welcome frame: contact limits, race timing
/// and the pit window.
#[derive(Debug, Clone, Copy, PartialEq, Eq, Structural)]
pub struct WelcomeRaceRules {
    pub max_contacts_per_km: u8,
    pub race_over_time: u32,
    pub result_screen_time: u32,
    pub has_extra_lap: bool,
    pub race_gas_penalty_disabled: bool,
    pub pit_window_start: u16,
    pub pit_window_end: u16,
    pub inverted_grid_positions: i16,
}

impl View for WelcomeRaceRules {
    type V = WelcomeRaceRules;

    open spec fn view(&self) -> WelcomeRaceRules {
        *self
    }
}

impl Writeable for WelcomeRaceRules {
    open spec fn wf_v(w: WelcomeRaceRules) -> bool {
        true
    }

    open spec fn enc_v(w: WelcomeRaceRules) -> Seq<u8> {
        <u8 as Writeable>::enc_v(w.max_contacts_per_km) + <u32 as Writeable>::enc_v(w.race_over_time) + <u32 as Writeable>::enc_v(w.result_screen_time) + <bool as Writeable>::enc_v(w.has_extra_lap) + <bool as Writeable>::enc_v(w.race_gas_penalty_disabled) + <u16 as Writeable>::enc_v(w.pit_window_start) + <u16 as Writeable>::enc_v(w.pit_window_end) + <i16 as Writeable>::enc_v(w.inverted_grid_positions)
    }

    #[verifier::rlimit(100)]
    #[verifier::spinoff_prover]
    fn write(&self, buffer: &mut Vec<u8>) {
        self.max_contacts_per_km.write(buffer);
        self.race_over_time.write(buffer);
        self.result_screen_time.write(buffer);
        self.has_extra_lap.write(buffer);
        self.race_gas_penalty_disabled.write(buffer);
        self.pit_window_start.write(buffer);
        self.pit_window_end.write(buffer);
        self.inverted_grid_positions.write(buffer);
        assert(buffer@ =~= old(buffer)@ + Self::enc_v(self@));
    }
}

impl Readable for WelcomeRaceRules {
    open spec fn dec_v(s: Seq<u8>) -> Option<(WelcomeRaceRules, int)> {
        match <u8 as Readable>::dec_v(s) {
            None => None,
            Some((max_contacts_per_km, n1)) => 
            match <u32 as Readable>::dec_v(s.skip(n1)) {
                None => None,
                Some((race_over_time, n2)) => 
                match <u32 as Readable>::dec_v(s.skip(n1 + n2)) {
                    None => None,
                    Some((result_screen_time, n3)) => 
                    match <bool as Readable>::dec_v(s.skip(n1 + n2 + n3)) {
                        None => None,
                        Some((has_extra_lap, n4)) => 
                        match <bool as Readable>::dec_v(s.skip(n1 + n2 + n3 + n4)) {
                            None => None,
                            Some((race_gas_penalty_disabled, n5)) => 
                            match <u16 as Readable>::dec_v(s.skip(n1 + n2 + n3 + n4 + n5)) {
                                None => None,
                                Some((pit_window_start, n6)) => 
                                match <u16 as Readable>::dec_v(s.skip(n1 + n2 + n3 + n4 + n5 + n6)) {
                                    None => None,
                                    Some((pit_window_end, n7)) => 
                                    match <i16 as Readable>::dec_v(s.skip(n1 + n2 + n3 + n4 + n5 + n6 + n7)) {
                                        None => None,
                                        Some((inverted_grid_positions, n8)) => Some((WelcomeRaceRules { max_contacts_per_km, race_over_time, result_screen_time, has_extra_lap, race_gas_penalty_disabled, pit_window_start, pit_window_end, inverted_grid_positions }, n1 + n2 + n3 + n4 + n5 + n6 + n7 + n8)),
                                    },
                                },
                            },
                        },
                    },
                },
            },
        }
    }

    open spec fn reads_to_end() -> bool {
        false
    }

    #[verifier::rlimit(100)]
    #[verifier::spinoff_prover]
    proof fn lemma_dec_sound(s: Seq<u8>) {
        <u8 as Readable>::lemma_dec_sound(s);
        if let Some((max_contacts_per_km, n1)) = <u8 as Readable>::dec_v(s) {
            <u32 as Readable>::lemma_dec_sound(s.skip(n1));
            if let Some((race_over_time, n2)) = <u32 as Readable>::dec_v(s.skip(n1)) {
                <u32 as Readable>::lemma_dec_sound(s.skip(n1 + n2));
                if let Some((result_screen_time, n3)) = <u32 as Readable>::dec_v(s.skip(n1 + n2)) {
                    <bool as Readable>::lemma_dec_sound(s.skip(n1 + n2 + n3));
                    if let Some((has_extra_lap, n4)) = <bool as Readable>::dec_v(s.skip(n1 + n2 + n3)) {
                        <bool as Readable>::lemma_dec_sound(s.skip(n1 + n2 + n3 + n4));
                        if let Some((race_gas_penalty_disabled, n5)) = <bool as Readable>::dec_v(s.skip(n1 + n2 + n3 + n4)) {
                            <u16 as Readable>::lemma_dec_sound(s.skip(n1 + n2 + n3 + n4 + n5));
                            if let Some((pit_window_start, n6)) = <u16 as Readable>::dec_v(s.skip(n1 + n2 + n3 + n4 + n5)) {
                                <u16 as Readable>::lemma_dec_sound(s.skip(n1 + n2 + n3 + n4 + n5 + n6));
                                if let Some((pit_window_end, n7)) = <u16 as Readable>::dec_v(s.skip(n1 + n2 + n3 + n4 + n5 + n6)) {
                                    <i16 as Readable>::lemma_dec_sound(s.skip(n1 + n2 + n3 + n4 + n5 + n6 + n7));
                                    if let Some((inverted_grid_positions, n8)) = <i16 as Readable>::dec_v(s.skip(n1 + n2 + n3 + n4 + n5 + n6 + n7)) {
                                        assert(s.take(n1) + s.skip(n1).take(n2) =~= s.take(n1 + n2));
                                        assert(s.take(n1 + n2) + s.skip(n1 + n2).take(n3) =~= s.take(n1 + n2 + n3));
                                        assert(s.take(n1 + n2 + n3) + s.skip(n1 + n2 + n3).take(n4) =~= s.take(n1 + n2 + n3 + n4));
                                        assert(s.take(n1 + n2 + n3 + n4) + s.skip(n1 + n2 + n3 + n4).take(n5) =~= s.take(n1 + n2 + n3 + n4 + n5));
                                        assert(s.take(n1 + n2 + n3 + n4 + n5) + s.skip(n1 + n2 + n3 + n4 + n5).take(n6) =~= s.take(n1 + n2 + n3 + n4 + n5 + n6));
                                        assert(s.take(n1 + n2 + n3 + n4 + n5 + n6) + s.skip(n1 + n2 + n3 + n4 + n5 + n6).take(n7) =~= s.take(n1 + n2 + n3 + n4 + n5 + n6 + n7));
                                        assert(s.take(n1 + n2 + n3 + n4 + n5 + n6 + n7) + s.skip(n1 + n2 + n3 + n4 + n5 + n6 + n7).take(n8) =~= s.take(n1 + n2 + n3 + n4 + n5 + n6 + n7 + n8));
                                    }
                                }
                            }
                        }
                    }
                }
            }
        }
    }

    #[verifier::rlimit(100)]
    #[verifier::spinoff_prover]
    proof fn lemma_dec_complete(w: WelcomeRaceRules, rest: Seq<u8>) {
        let e1 = <u8 as Writeable>::enc_v(w.max_contacts_per_km);
        let e2 = <u32 as Writeable>::enc_v(w.race_over_time);
        let e3 = <u32 as Writeable>::enc_v(w.result_screen_time);
        let e4 = <bool as Writeable>::enc_v(w.has_extra_lap);
        let e5 = <bool as Writeable>::enc_v(w.race_gas_penalty_disabled);
        let e6 = <u16 as Writeable>::enc_v(w.pit_window_start);
        let e7 = <u16 as Writeable>::enc_v(w.pit_window_end);
        let e8 = <i16 as Writeable>::enc_v(w.inverted_grid_positions);
        let r8 = rest;
        let r7 = e8 + r8;
        let r6 = e7 + r7;
        let r5 = e6 + r6;
        let r4 = e5 + r5;
        let r3 = e4 + r4;
        let r2 = e3 + r3;
        let r1 = e2 + r2;
        let s = Self::enc_v(w) + rest;
        assert(s =~= e1 + r1);
        <u8 as Readable>::lemma_dec_complete(w.max_contacts_per_km, r1);
        lemma_skip_concat(e1, r1);
        <u32 as Readable>::lemma_dec_complete(w.race_over_time, r2);
        lemma_skip_concat(e2, r2);
        lemma_skip_skip(s, (e1.len()) as int, e2.len() as int);
        <u32 as Readable>::lemma_dec_complete(w.result_screen_time, r3);
        lemma_skip_concat(e3, r3);
        lemma_skip_skip(s, (e1.len() + e2.len()) as int, e3.len() as int);
        <bool as Readable>::lemma_dec_complete(w.has_extra_lap, r4);
        lemma_skip_concat(e4, r4);
        lemma_skip_skip(s, (e1.len() + e2.len() + e3.len()) as int, e4.len() as int);
        <bool as Readable>::lemma_dec_complete(w.race_gas_penalty_disabled, r5);
        lemma_skip_concat(e5, r5);
        lemma_skip_skip(s, (e1.len() + e2.len() + e3.len() + e4.len()) as int, e5.len() as int);
        <u16 as Readable>::lemma_dec_complete(w.pit_window_start, r6);
        lemma_skip_concat(e6, r6);
        lemma_skip_skip(s, (e1.len() + e2.len() + e3.len() + e4.len() + e5.len()) as int, e6.len() as int);
        <u16 as Readable>::lemma_dec_complete(w.pit_window_end, r7);
        lemma_skip_concat(e7, r7);
        lemma_skip_skip(s, (e1.len() + e2.len() + e3.len() + e4.len() + e5.len() + e6.len()) as int, e7.len() as int);
        <i16 as Readable>::lemma_dec_complete(w.inverted_grid_positions, r8);
        lemma_skip_concat(e8, r8);
        lemma_skip_skip(s, (e1.len() + e2.len() + e3.len() + e4.len() + e5.len() + e6.len() + e7.len()) as int, e8.len() as int);
    }

    #[verifier::rlimit(100)]
    #[verifier::spinoff_prover]
    fn read(buf: &[u8], pos: &mut usize) -> (r: Result<WelcomeRaceRules, Error>) {
        let ghost s = buf@.skip(*pos as int);
        let ghost p0 = *pos;
        let f_max_contacts_per_km = match <u8 as Readable>::read(buf, pos) {
            Ok(v) => v,
            Err(e) => {
                return Err(e);
            },
        };
        assert(buf@.skip(*pos as int) =~= s.skip(*pos - p0));
        let f_race_over_time = match <u32 as Readable>::read(buf, pos) {
            Ok(v) => v,
            Err(e) => {
                return Err(e);
            },
        };
        assert(buf@.skip(*pos as int) =~= s.skip(*pos - p0));
        let f_result_screen_time = match <u32 as Readable>::read(buf, pos) {
            Ok(v) => v,
            Err(e) => {
                return Err(e);
            },
        };
        assert(buf@.skip(*pos as int) =~= s.skip(*pos - p0));
        let f_has_extra_lap = match <bool as Readable>::read(buf, pos) {
            Ok(v) => v,
            Err(e) => {
                return Err(e);
            },
        };
        assert(buf@.skip(*pos as int) =~= s.skip(*pos - p0));
        let f_race_gas_penalty_disabled = match <bool as Readable>::read(buf, pos) {
            Ok(v) => v,
            Err(e) => {
                return Err(e);
            },
        };
        assert(buf@.skip(*pos as int) =~= s.skip(*pos - p0));
        let f_pit_window_start = match <u16 as Readable>::read(buf, pos) {
            Ok(v) => v,
            Err(e) => {
                return Err(e);
            },
        };
        assert(buf@.skip(*pos as int) =~= s.skip(*pos - p0));
        let f_pit_window_end = match <u16 as Readable>::read(buf, pos) {
            Ok(v) => v,
            Err(e) => {
                return Err(e);
            },
        };
        assert(buf@.skip(*pos as int) =~= s.skip(*pos - p0));
        let f_inverted_grid_positions = match <i16 as Readable>::read(buf, pos) {
            Ok(v) => v,
            Err(e) => {
                return Err(e);
            },
        };
        let v = WelcomeRaceRules { max_contacts_per_km: f_max_contacts_per_km, race_over_time: f_race_over_time, result_screen_time: f_result_screen_time, has_extra_lap: f_has_extra_lap, race_gas_penalty_disabled: f_race_gas_penalty_disabled, pit_window_start: f_pit_window_start, pit_window_end: f_pit_window_end, inverted_grid_positions: f_inverted_grid_positions };
        Ok(v)
    }
}

/// The fourth block of the welcome frame: the assigned car slot, the
/// session list and the current session descriptor.
#[derive(Debug, Clone, PartialEq)]
pub struct WelcomeSessionInfo {
    pub session_id: u8,
    pub sessions: Vec<SessionU>,
    pub session_name: ByteString,
    pub session_index: u8,
    pub session_type: SessionType,
    pub session_time: u16,
    pub session_laps: u16,
    pub grip_level: F32,
    pub player_position: u8,
    pub session_start_time: i64,
}

/// The mathematical view of [`WelcomeSessionInfo`].
#[verifier::ext_equal]
pub struct WelcomeSessionInfoView {
    pub session_id: u8,
    pub sessions: Seq<SessionU>,
    pub session_name: Seq<u8>,
    pub session_index: u8,
    pub session_type: SessionType,
    pub session_time: u16,
    pub session_laps: u16,
    pub grip_level: F32,
    pub player_position: u8,
    pub session_start_time: i64,
}

impl View for WelcomeSessionInfo {
    type V = WelcomeSessionInfoView;

    open spec fn view(&self) -> WelcomeSessionInfoView {
        WelcomeSessionInfoView {
            session_id: self.session_id,
            sessions: views_of(self.sessions@),
            session_name: self.session_name@,
            session_index: self.session_index,
            session_type: self.session_type,
            session_time: self.session_time,
            session_laps: self.session_laps,
            grip_level: self.grip_level,
            player_position: self.player_position,
            session_start_time: self.session_start_time,
        }
    }
}

impl Writeable for WelcomeSessionInfo {
    open spec fn wf_v(w: WelcomeSessionInfoView) -> bool {
        &&& wf_u8_vec::<SessionU>(w.sessions)
        &&& <ByteString as Writeable>::wf_v(w.session_name)
    }

    open spec fn enc_v(w: WelcomeSessionInfoView) -> Seq<u8> {
        <u8 as Writeable>::enc_v(w.session_id) + enc_u8_vec::<SessionU>(w.sessions) + <ByteString as Writeable>::enc_v(w.session_name) + <u8 as Writeable>::enc_v(w.session_index) + <SessionType as Writeable>::enc_v(w.session_type) + <u16 as Writeable>::enc_v(w.session_time) + <u16 as Writeable>::enc_v(w.session_laps) + <F32 as Writeable>::enc_v(w.grip_level) + <u8 as Writeable>::enc_v(w.player_position) + <i64 as Writeable>::enc_v(w.session_start_time)
    }

    #[verifier::rlimit(100)]
    #[verifier::spinoff_prover]
    fn write(&self, buffer: &mut Vec<u8>) {
        self.session_id.write(buffer);
        write_u8_vec::<SessionU>(&self.sessions, buffer);
        self.session_name.write(buffer);
        self.session_index.write(buffer);
        self.session_type.write(buffer);
        self.session_time.write(buffer);
        self.session_laps.write(buffer);
        self.grip_level.write(buffer);
        self.player_position.write(buffer);
        self.session_start_time.write(buffer);
        assert(buffer@ =~= old(buffer)@ + Self::enc_v(self@));
    }
}

impl Readable for WelcomeSessionInfo {
    open spec fn dec_v(s: Seq<u8>) -> Option<(WelcomeSessionInfoView, int)> {
        match <u8 as Readable>::dec_v(s) {
            None => None,
            Some((session_id, n1)) => 
            match dec_u8_vec::<SessionU>(s.skip(n1)) {
                None => None,
                Some((sessions, n2)) => 
                match <ByteString as Readable>::dec_v(s.skip(n1 + n2)) {
                    None => None,
                    Some((session_name, n3)) => 
                    match <u8 as Readable>::dec_v(s.skip(n1 + n2 + n3)) {
                        None => None,
                        Some((session_index, n4)) => 
                        match <SessionType as Readable>::dec_v(s.skip(n1 + n2 + n3 + n4)) {
                            None => None,
                            Some((session_type, n5)) => 
                            match <u16 as Readable>::dec_v(s.skip(n1 + n2 + n3 + n4 + n5)) {
                                None => None,
                                Some((session_time, n6)) => 
                                match <u16 as Readable>::dec_v(s.skip(n1 + n2 + n3 + n4 + n5 + n6)) {
                                    None => None,
                                    Some((session_laps, n7)) => 
                                    match <F32 as Readable>::dec_v(s.skip(n1 + n2 + n3 + n4 + n5 + n6 + n7)) {
                                        None => None,
                                        Some((grip_level, n8)) => 
                                        match <u8 as Readable>::dec_v(s.skip(n1 + n2 + n3 + n4 + n5 + n6 + n7 + n8)) {
                                            None => None,
                                            Some((player_position, n9)) => 
                                            match <i64 as Readable>::dec_v(s.skip(n1 + n2 + n3 + n4 + n5 + n6 + n7 + n8 + n9)) {
                                                None => None,
                                                Some((session_start_time, n10)) => Some((WelcomeSessionInfoView { session_id, sessions, session_name, session_index, session_type, session_time, session_laps, grip_level, player_position, session_start_time }, n1 + n2 + n3 + n4 + n5 + n6 + n7 + n8 + n9 + n10)),
                                            },
                                        },
                                    },
                                },
                            },
                        },
                    },
                },
            },
        }
    }

    open spec fn reads_to_end() -> bool {
        false
    }

    #[verifier::rlimit(100)]
    #[verifier::spinoff_prover]
    proof fn lemma_dec_sound(s: Seq<u8>) {
        <u8 as Readable>::lemma_dec_sound(s);
        if let Some((session_id, n1)) = <u8 as Readable>::dec_v(s) {
            lemma_dec_u8_vec_sound::<SessionU>(s.skip(n1));
            if let Some((sessions, n2)) = dec_u8_vec::<SessionU>(s.skip(n1)) {
                <ByteString as Readable>::lemma_dec_sound(s.skip(n1 + n2));
                if let Some((session_name, n3)) = <ByteString as Readable>::dec_v(s.skip(n1 + n2)) {
                    <u8 as Readable>::lemma_dec_sound(s.skip(n1 + n2 + n3));
                    if let Some((session_index, n4)) = <u8 as Readable>::dec_v(s.skip(n1 + n2 + n3)) {
                        <SessionType as Readable>::lemma_dec_sound(s.skip(n1 + n2 + n3 + n4));
                        if let Some((session_type, n5)) = <SessionType as Readable>::dec_v(s.skip(n1 + n2 + n3 + n4)) {
                            <u16 as Readable>::lemma_dec_sound(s.skip(n1 + n2 + n3 + n4 + n5));
                            if let Some((session_time, n6)) = <u16 as Readable>::dec_v(s.skip(n1 + n2 + n3 + n4 + n5)) {
                                <u16 as Readable>::lemma_dec_sound(s.skip(n1 + n2 + n3 + n4 + n5 + n6));
                                if let Some((session_laps, n7)) = <u16 as Readable>::dec_v(s.skip(n1 + n2 + n3 + n4 + n5 + n6)) {
                                    <F32 as Readable>::lemma_dec_sound(s.skip(n1 + n2 + n3 + n4 + n5 + n6 + n7));
                                    if let Some((grip_level, n8)) = <F32 as Readable>::dec_v(s.skip(n1 + n2 + n3 + n4 + n5 + n6 + n7)) {
                                        <u8 as Readable>::lemma_dec_sound(s.skip(n1 + n2 + n3 + n4 + n5 + n6 + n7 + n8));
                                        if let Some((player_position, n9)) = <u8 as Readable>::dec_v(s.skip(n1 + n2 + n3 + n4 + n5 + n6 + n7 + n8)) {
                                            <i64 as Readable>::lemma_dec_sound(s.skip(n1 + n2 + n3 + n4 + n5 + n6 + n7 + n8 + n9));
                                            if let Some((session_start_time, n10)) = <i64 as Readable>::dec_v(s.skip(n1 + n2 + n3 + n4 + n5 + n6 + n7 + n8 + n9)) {
                                                assert(s.take(n1) + s.skip(n1).take(n2) =~= s.take(n1 + n2));
                                                assert(s.take(n1 + n2) + s.skip(n1 + n2).take(n3) =~= s.take(n1 + n2 + n3));
                                                assert(s.take(n1 + n2 + n3) + s.skip(n1 + n2 + n3).take(n4) =~= s.take(n1 + n2 + n3 + n4));
                                                assert(s.take(n1 + n2 + n3 + n4) + s.skip(n1 + n2 + n3 + n4).take(n5) =~= s.take(n1 + n2 + n3 + n4 + n5));
                                                assert(s.take(n1 + n2 + n3 + n4 + n5) + s.skip(n1 + n2 + n3 + n4 + n5).take(n6) =~= s.take(n1 + n2 + n3 + n4 + n5 + n6));
                                                assert(s.take(n1 + n2 + n3 + n4 + n5 + n6) + s.skip(n1 + n2 + n3 + n4 + n5 + n6).take(n7) =~= s.take(n1 + n2 + n3 + n4 + n5 + n6 + n7));
                                                assert(s.take(n1 + n2 + n3 + n4 + n5 + n6 + n7) + s.skip(n1 + n2 + n3 + n4 + n5 + n6 + n7).take(n8) =~= s.take(n1 + n2 + n3 + n4 + n5 + n6 + n7 + n8));
                                                assert(s.take(n1 + n2 + n3 + n4 + n5 + n6 + n7 + n8) + s.skip(n1 + n2 + n3 + n4 + n5 + n6 + n7 + n8).take(n9) =~= s.take(n1 + n2 + n3 + n4 + n5 + n6 + n7 + n8 + n9));
                                                assert(s.take(n1 + n2 + n3 + n4 + n5 + n6 + n7 + n8 + n9) + s.skip(n1 + n2 + n3 + n4 + n5 + n6 + n7 + n8 + n9).take(n10) =~= s.take(n1 + n2 + n3 + n4 + n5 + n6 + n7 + n8 + n9 + n10));
                                            }
                                        }
                                    }
                                }
                            }
                        }
                    }
                }
            }
        }
    }

    #[verifier::rlimit(100)]
    #[verifier::spinoff_prover]
    proof fn lemma_dec_complete(w: WelcomeSessionInfoView, rest: Seq<u8>) {
        let e1 = <u8 as Writeable>::enc_v(w.session_id);
        let e2 = enc_u8_vec::<SessionU>(w.sessions);
        let e3 = <ByteString as Writeable>::enc_v(w.session_name);
        let e4 = <u8 as Writeable>::enc_v(w.session_index);
        let e5 = <SessionType as Writeable>::enc_v(w.session_type);
        let e6 = <u16 as Writeable>::enc_v(w.session_time);
        let e7 = <u16 as Writeable>::enc_v(w.session_laps);
        let e8 = <F32 as Writeable>::enc_v(w.grip_level);
        let e9 = <u8 as Writeable>::enc_v(w.player_position);
        let e10 = <i64 as Writeable>::enc_v(w.session_start_time);
        let r10 = rest;
        let r9 = e10 + r10;
        let r8 = e9 + r9;
        let r7 = e8 + r8;
        let r6 = e7 + r7;
        let r5 = e6 + r6;
        let r4 = e5 + r5;
        let r3 = e4 + r4;
        let r2 = e3 + r3;
        let r1 = e2 + r2;
        let s = Self::enc_v(w) + rest;
        assert(s =~= e1 + r1);
        <u8 as Readable>::lemma_dec_complete(w.session_id, r1);
        lemma_skip_concat(e1, r1);
        assert(!<SessionU as Readable>::reads_to_end());
        lemma_dec_u8_vec_complete::<SessionU>(w.sessions, r2);
        lemma_skip_concat(e2, r2);
        lemma_skip_skip(s, (e1.len()) as int, e2.len() as int);
        <ByteString as Readable>::lemma_dec_complete(w.session_name, r3);
        lemma_skip_concat(e3, r3);
        lemma_skip_skip(s, (e1.len() + e2.len()) as int, e3.len() as int);
        <u8 as Readable>::lemma_dec_complete(w.session_index, r4);
        lemma_skip_concat(e4, r4);
        lemma_skip_skip(s, (e1.len() + e2.len() + e3.len()) as int, e4.len() as int);
        <SessionType as Readable>::lemma_dec_complete(w.session_type, r5);
        lemma_skip_concat(e5, r5);
        lemma_skip_skip(s, (e1.len() + e2.len() + e3.len() + e4.len()) as int, e5.len() as int);
        <u16 as Readable>::lemma_dec_complete(w.session_time, r6);
        lemma_skip_concat(e6, r6);
        lemma_skip_skip(s, (e1.len() + e2.len() + e3.len() + e4.len() + e5.len()) as int, e6.len() as int);
        <u16 as Readable>::lemma_dec_complete(w.session_laps, r7);
        lemma_skip_concat(e7, r7);
        lemma_skip_skip(s, (e1.len() + e2.len() + e3.len() + e4.len() + e5.len() + e6.len()) as int, e7.len() as int);
        <F32 as Readable>::lemma_dec_complete(w.grip_level, r8);
        lemma_skip_concat(e8, r8);
        lemma_skip_skip(s, (e1.len() + e2.len() + e3.len() + e4.len() + e5.len() + e6.len() + e7.len()) as int, e8.len() as int);
        <u8 as Readable>::lemma_dec_complete(w.player_position, r9);
        lemma_skip_concat(e9, r9);
        lemma_skip_skip(s, (e1.len() + e2.len() + e3.len() + e4.len() + e5.len() + e6.len() + e7.len() + e8.len()) as int, e9.len() as int);
        <i64 as Readable>::lemma_dec_complete(w.session_start_time, r10);
        lemma_skip_concat(e10, r10);
        lemma_skip_skip(s, (e1.len() + e2.len() + e3.len() + e4.len() + e5.len() + e6.len() + e7.len() + e8.len() + e9.len()) as int, e10.len() as int);
    }

    #[verifier::rlimit(100)]
    #[verifier::spinoff_prover]
    fn read(buf: &[u8], pos: &mut usize) -> (r: Result<WelcomeSessionInfo, Error>) {
        let ghost s = buf@.skip(*pos as int);
        let ghost p0 = *pos;
        let f_session_id = match <u8 as Readable>::read(buf, pos) {
            Ok(v) => v,
            Err(e) => {
                return Err(e);
            },
        };
        assert(buf@.skip(*pos as int) =~= s.skip(*pos - p0));
        let f_sessions = match read_u8_vec::<SessionU>(buf, pos) {
            Ok(v) => v,
            Err(e) => {
                return Err(e);
            },
        };
        assert(buf@.skip(*pos as int) =~= s.skip(*pos - p0));
        let f_session_name = match <ByteString as Readable>::read(buf, pos) {
            Ok(v) => v,
            Err(e) => {
                return Err(e);
            },
        };
        assert(buf@.skip(*pos as int) =~= s.skip(*pos - p0));
        let f_session_index = match <u8 as Readable>::read(buf, pos) {
            Ok(v) => v,
            Err(e) => {
                return Err(e);
            },
        };
        assert(buf@.skip(*pos as int) =~= s.skip(*pos - p0));
        let f_session_type = match <SessionType as Readable>::read(buf, pos) {
            Ok(v) => v,
            Err(e) => {
                return Err(e);
            },
        };
        assert(buf@.skip(*pos as int) =~= s.skip(*pos - p0));
        let f_session_time = match <u16 as Readable>::read(buf, pos) {
            Ok(v) => v,
            Err(e) => {
                return Err(e);
            },
        };
        assert(buf@.skip(*pos as int) =~= s.skip(*pos - p0));
        let f_session_laps = match <u16 as Readable>::read(buf, pos) {
            Ok(v) => v,
            Err(e) => {
                return Err(e);
            },
        };
        assert(buf@.skip(*pos as int) =~= s.skip(*pos - p0));
        let f_grip_level = match <F32 as Readable>::read(buf, pos) {
            Ok(v) => v,
            Err(e) => {
                return Err(e);
            },
        };
        assert(buf@.skip(*pos as int) =~= s.skip(*pos - p0));
        let f_player_position = match <u8 as Readable>::read(buf, pos) {
            Ok(v) => v,
            Err(e) => {
                return Err(e);
            },
        };
        assert(buf@.skip(*pos as int) =~= s.skip(*pos - p0));
        let f_session_start_time = match <i64 as Readable>::read(buf, pos) {
            Ok(v) => v,
            Err(e) => {
                return Err(e);
            },
        };
        let v = WelcomeSessionInfo { session_id: f_session_id, sessions: f_sessions, session_name: f_session_name, session_index: f_session_index, session_type: f_session_type, session_time: f_session_time, session_laps: f_session_laps, grip_level: f_grip_level, player_position: f_player_position, session_start_time: f_session_start_time };
        assert(v@ =~= WelcomeSessionInfoView { session_id: f_session_id, sessions: views_of(f_sessions@), session_name: f_session_name@, session_index: f_session_index, session_type: f_session_type, session_time: f_session_time, session_laps: f_session_laps, grip_level: f_grip_level, player_position: f_player_position, session_start_time: f_session_start_time });
        Ok(v)
    }
}

/// The last block of the welcome frame: the files to checksum, the
/// legal tyres and the server clock.
#[derive(Debug, Clone, PartialEq)]
pub struct WelcomeExtras {
    pub checksum_files: Vec<ByteString>,
    pub legal_tyres: ByteString,
    pub random_seed: u32,
    pub server_time: u32,
}

/// The mathematical view of [`WelcomeExtras`].
#[verifier::ext_equal]
pub struct WelcomeExtrasView {
    pub checksum_files: Seq<Seq<u8>>,
    pub legal_tyres: Seq<u8>,
    pub random_seed: u32,
    pub server_time: u32,
}

impl View for WelcomeExtras {
    type V = WelcomeExtrasView;

    open spec fn view(&self) -> WelcomeExtrasView {
        WelcomeExtrasView {
            checksum_files: views_of(self.checksum_files@),
            legal_tyres: self.legal_tyres@,
            random_seed: self.random_seed,
            server_time: self.server_time,
        }
    }
}

impl Writeable for WelcomeExtras {
    open spec fn wf_v(w: WelcomeExtrasView) -> bool {
        &&& wf_u8_vec::<ByteString>(w.checksum_files)
        &&& <ByteString as Writeable>::wf_v(w.legal_tyres)
    }

    open spec fn enc_v(w: WelcomeExtrasView) -> Seq<u8> {
        enc_u8_vec::<ByteString>(w.checksum_files) + <ByteString as Writeable>::enc_v(w.legal_tyres) + <u32 as Writeable>::enc_v(w.random_seed) + <u32 as Writeable>::enc_v(w.server_time)
    }

    fn write(&self, buffer: &mut Vec<u8>) {
        write_u8_vec::<ByteString>(&self.checksum_files, buffer);
        self.legal_tyres.write(buffer);
        self.random_seed.write(buffer);
        self.server_time.write(buffer);
        assert(buffer@ =~= old(buffer)@ + Self::enc_v(self@));
    }
}

impl Readable for WelcomeExtras {
    open spec fn dec_v(s: Seq<u8>) -> Option<(WelcomeExtrasView, int)> {
        match dec_u8_vec::<ByteString>(s) {
            None => None,
            Some((checksum_files, n1)) => 
            match <ByteString as Readable>::dec_v(s.skip(n1)) {
                None => None,
                Some((legal_tyres, n2)) => 
                match <u32 as Readable>::dec_v(s.skip(n1 + n2)) {
                    None => None,
                    Some((random_seed, n3)) => 
                    match <u32 as Readable>::dec_v(s.skip(n1 + n2 + n3)) {
                        None => None,
                        Some((server_time, n4)) => Some((WelcomeExtrasView { checksum_files, legal_tyres, random_seed, server_time }, n1 + n2 + n3 + n4)),
                    },
                },
            },
        }
    }

    open spec fn reads_to_end() -> bool {
        false
    }

    proof fn lemma_dec_sound(s: Seq<u8>) {
        lemma_dec_u8_vec_sound::<ByteString>(s);
        if let Some((checksum_files, n1)) = dec_u8_vec::<ByteString>(s) {
            <ByteString as Readable>::lemma_dec_sound(s.skip(n1));
            if let Some((legal_tyres, n2)) = <ByteString as Readable>::dec_v(s.skip(n1)) {
                <u32 as Readable>::lemma_dec_sound(s.skip(n1 + n2));
                if let Some((random_seed, n3)) = <u32 as Readable>::dec_v(s.skip(n1 + n2)) {
                    <u32 as Readable>::lemma_dec_sound(s.skip(n1 + n2 + n3));
                    if let Some((server_time, n4)) = <u32 as Readable>::dec_v(s.skip(n1 + n2 + n3)) {
                        assert(s.take(n1) + s.skip(n1).take(n2) =~= s.take(n1 + n2));
                        assert(s.take(n1 + n2) + s.skip(n1 + n2).take(n3) =~= s.take(n1 + n2 + n3));
                        assert(s.take(n1 + n2 + n3) + s.skip(n1 + n2 + n3).take(n4) =~= s.take(n1 + n2 + n3 + n4));
                    }
                }
            }
        }
    }

    proof fn lemma_dec_complete(w: WelcomeExtrasView, rest: Seq<u8>) {
        let e1 = enc_u8_vec::<ByteString>(w.checksum_files);
        let e2 = <ByteString as Writeable>::enc_v(w.legal_tyres);
        let e3 = <u32 as Writeable>::enc_v(w.random_seed);
        let e4 = <u32 as Writeable>::enc_v(w.server_time);
        let r4 = rest;
        let r3 = e4 + r4;
        let r2 = e3 + r3;
        let r1 = e2 + r2;
        let s = Self::enc_v(w) + rest;
        assert(s =~= e1 + r1);
        assert(!<ByteString as Readable>::reads_to_end());
        lemma_dec_u8_vec_complete::<ByteString>(w.checksum_files, r1);
        lemma_skip_concat(e1, r1);
        <ByteString as Readable>::lemma_dec_complete(w.legal_tyres, r2);
        lemma_skip_concat(e2, r2);
        lemma_skip_skip(s, (e1.len()) as int, e2.len() as int);
        <u32 as Readable>::lemma_dec_complete(w.random_seed, r3);
        lemma_skip_concat(e3, r3);
        lemma_skip_skip(s, (e1.len() + e2.len()) as int, e3.len() as int);
        <u32 as Readable>::lemma_dec_complete(w.server_time, r4);
        lemma_skip_concat(e4, r4);
        lemma_skip_skip(s, (e1.len() + e2.len() + e3.len()) as int, e4.len() as int);
    }

    fn read(buf: &[u8], pos: &mut usize) -> (r: Result<WelcomeExtras, Error>) {
        let ghost s = buf@.skip(*pos as int);
        let ghost p0 = *pos;
        let f_checksum_files = match read_u8_vec::<ByteString>(buf, pos) {
            Ok(v) => v,
            Err(e) => {
                return Err(e);
            },
        };
        assert(buf@.skip(*pos as int) =~= s.skip(*pos - p0));
        let f_legal_tyres = match <ByteString as Readable>::read(buf, pos) {
            Ok(v) => v,
            Err(e) => {
                return Err(e);
            },
        };
        assert(buf@.skip(*pos as int) =~= s.skip(*pos - p0));
        let f_random_seed = match <u32 as Readable>::read(buf, pos) {
            Ok(v) => v,
            Err(e) => {
                return Err(e);
            },
        };
        assert(buf@.skip(*pos as int) =~= s.skip(*pos - p0));
        let f_server_time = match <u32 as Readable>::read(buf, pos) {
            Ok(v) => v,
            Err(e) => {
                return Err(e);
            },
        };
        let v = WelcomeExtras { checksum_files: f_checksum_files, legal_tyres: f_legal_tyres, random_seed: f_random_seed, server_time: f_server_time };
        assert(v@ =~= WelcomeExtrasView { checksum_files: views_of(f_checksum_files@), legal_tyres: f_legal_tyres@, random_seed: f_random_seed, server_time: f_server_time });
        Ok(v)
    }
}

/// The welcome frame sent after a successful handshake: a snapshot of
/// the immutable server parameters, the session list and the current
/// session descriptor, in six blocks.
#[derive(Debug, Clone, PartialEq)]
pub struct NewCarConnection {
    pub server_info: WelcomeServerInfo,
    pub assists: WelcomeAssists,
    pub handicaps: WelcomeHandicaps,
    pub race_rules: WelcomeRaceRules,
    pub session_info: WelcomeSessionInfo,
    pub extras: WelcomeExtras,
}

/// The mathematical view of [`NewCarConnection`].
#[verifier::ext_equal]
pub struct NewCarConnectionView {
    pub server_info: WelcomeServerInfoView,
    pub assists: WelcomeAssists,
    pub handicaps: WelcomeHandicaps,
    pub race_rules: WelcomeRaceRules,
    pub session_info: WelcomeSessionInfoView,
    pub extras: WelcomeExtrasView,
}

impl View for NewCarConnection {
    type V = NewCarConnectionView;

    open spec fn view(&self) -> NewCarConnectionView {
        NewCarConnectionView {
            server_info: self.server_info@,
            assists: self.assists,
            handicaps: self.handicaps,
            race_rules: self.race_rules,
            session_info: self.session_info@,
            extras: self.extras@,
        }
    }
}

impl Writeable for NewCarConnection {
    open spec fn wf_v(w: NewCarConnectionView) -> bool {
        &&& <WelcomeServerInfo as Writeable>::wf_v(w.server_info)
        &&& <WelcomeSessionInfo as Writeable>::wf_v(w.session_info)
        &&& <WelcomeExtras as Writeable>::wf_v(w.extras)
    }

    open spec fn enc_v(w: NewCarConnectionView) -> Seq<u8> {
        <WelcomeServerInfo as Writeable>::enc_v(w.server_info) + <WelcomeAssists as Writeable>::enc_v(w.assists) + <WelcomeHandicaps as Writeable>::enc_v(w.handicaps) + <WelcomeRaceRules as Writeable>::enc_v(w.race_rules) + <WelcomeSessionInfo as Writeable>::enc_v(w.session_info) + <WelcomeExtras as Writeable>::enc_v(w.extras)
    }

    #[verifier::rlimit(100)]
    #[verifier::spinoff_prover]
    fn write(&self, buffer: &mut Vec<u8>) {
        self.server_info.write(buffer);
        self.assists.write(buffer);
        self.handicaps.write(buffer);
        self.race_rules.write(buffer);
        self.session_info.write(buffer);
        self.extras.write(buffer);
        assert(buffer@ =~= old(buffer)@ + Self::enc_v(self@));
    }
}

impl Readable for NewCarConnection {
    open spec fn dec_v(s: Seq<u8>) -> Option<(NewCarConnectionView, int)> {
        match <WelcomeServerInfo as Readable>::dec_v(s) {
            None => None,
            Some((server_info, n1)) => 
            match <WelcomeAssists as Readable>::dec_v(s.skip(n1)) {
                None => None,
                Some((assists, n2)) => 
                match <WelcomeHandicaps as Readable>::dec_v(s.skip(n1 + n2)) {
                    None => None,
                    Some((handicaps, n3)) => 
                    match <WelcomeRaceRules as Readable>::dec_v(s.skip(n1 + n2 + n3)) {
                        None => None,
                        Some((race_rules, n4)) => 
                        match <WelcomeSessionInfo as Readable>::dec_v(s.skip(n1 + n2 + n3 + n4)) {
                            None => None,
                            Some((session_info, n5)) => 
                            match <WelcomeExtras as Readable>::dec_v(s.skip(n1 + n2 + n3 + n4 + n5)) {
                                None => None,
                                Some((extras, n6)) => Some((NewCarConnectionView { server_info, assists, handicaps, race_rules, session_info, extras }, n1 + n2 + n3 + n4 + n5 + n6)),
                            },
                        },
                    },
                },
            },
        }
    }

    open spec fn reads_to_end() -> bool {
        false
    }

    #[verifier::rlimit(100)]
    #[verifier::spinoff_prover]
    proof fn lemma_dec_sound(s: Seq<u8>) {
        <WelcomeServerInfo as Readable>::lemma_dec_sound(s);
        if let Some((server_info, n1)) = <WelcomeServerInfo as Readable>::dec_v(s) {
            <WelcomeAssists as Readable>::lemma_dec_sound(s.skip(n1));
            if let Some((assists, n2)) = <WelcomeAssists as Readable>::dec_v(s.skip(n1)) {
                <WelcomeHandicaps as Readable>::lemma_dec_sound(s.skip(n1 + n2));
                if let Some((handicaps, n3)) = <WelcomeHandicaps as Readable>::dec_v(s.skip(n1 + n2)) {
                    <WelcomeRaceRules as Readable>::lemma_dec_sound(s.skip(n1 + n2 + n3));
                    if let Some((race_rules, n4)) = <WelcomeRaceRules as Readable>::dec_v(s.skip(n1 + n2 + n3)) {
                        <WelcomeSessionInfo as Readable>::lemma_dec_sound(s.skip(n1 + n2 + n3 + n4));
                        if let Some((session_info, n5)) = <WelcomeSessionInfo as Readable>::dec_v(s.skip(n1 + n2 + n3 + n4)) {
                            <WelcomeExtras as Readable>::lemma_dec_sound(s.skip(n1 + n2 + n3 + n4 + n5));
                            if let Some((extras, n6)) = <WelcomeExtras as Readable>::dec_v(s.skip(n1 + n2 + n3 + n4 + n5)) {
                                assert(s.take(n1) + s.skip(n1).take(n2) =~= s.take(n1 + n2));
                                assert(s.take(n1 + n2) + s.skip(n1 + n2).take(n3) =~= s.take(n1 + n2 + n3));
                                assert(s.take(n1 + n2 + n3) + s.skip(n1 + n2 + n3).take(n4) =~= s.take(n1 + n2 + n3 + n4));
                                assert(s.take(n1 + n2 + n3 + n4) + s.skip(n1 + n2 + n3 + n4).take(n5) =~= s.take(n1 + n2 + n3 + n4 + n5));
                                assert(s.take(n1 + n2 + n3 + n4 + n5) + s.skip(n1 + n2 + n3 + n4 + n5).take(n6) =~= s.take(n1 + n2 + n3 + n4 + n5 + n6));
                            }
                        }
                    }
                }
            }
        }
    }

    #[verifier::rlimit(100)]
    #[verifier::spinoff_prover]
    proof fn lemma_dec_complete(w: NewCarConnectionView, rest: Seq<u8>) {
        let e1 = <WelcomeServerInfo as Writeable>::enc_v(w.server_info);
        let e2 = <WelcomeAssists as Writeable>::enc_v(w.assists);
        let e3 = <WelcomeHandicaps as Writeable>::enc_v(w.handicaps);
        let e4 = <WelcomeRaceRules as Writeable>::enc_v(w.race_rules);
        let e5 = <WelcomeSessionInfo as Writeable>::enc_v(w.session_info);
        let e6 = <WelcomeExtras as Writeable>::enc_v(w.extras);
        let r6 = rest;
        let r5 = e6 + r6;
        let r4 = e5 + r5;
        let r3 = e4 + r4;
        let r2 = e3 + r3;
        let r1 = e2 + r2;
        let s = Self::enc_v(w) + rest;
        assert(s =~= e1 + r1);
        <WelcomeServerInfo as Readable>::lemma_dec_complete(w.server_info, r1);
        lemma_skip_concat(e1, r1);
        <WelcomeAssists as Readable>::lemma_dec_complete(w.assists, r2);
        lemma_skip_concat(e2, r2);
        lemma_skip_skip(s, (e1.len()) as int, e2.len() as int);
        <WelcomeHandicaps as Readable>::lemma_dec_complete(w.handicaps, r3);
        lemma_skip_concat(e3, r3);
        lemma_skip_skip(s, (e1.len() + e2.len()) as int, e3.len() as int);
        <WelcomeRaceRules as Readable>::lemma_dec_complete(w.race_rules, r4);
        lemma_skip_concat(e4, r4);
        lemma_skip_skip(s, (e1.len() + e2.len() + e3.len()) as int, e4.len() as int);
        <WelcomeSessionInfo as Readable>::lemma_dec_complete(w.session_info, r5);
        lemma_skip_concat(e5, r5);
        lemma_skip_skip(s, (e1.len() + e2.len() + e3.len() + e4.len()) as int, e5.len() as int);
        <WelcomeExtras as Readable>::lemma_dec_complete(w.extras, r6);
        lemma_skip_concat(e6, r6);
        lemma_skip_skip(s, (e1.len() + e2.len() + e3.len() + e4.len() + e5.len()) as int, e6.len() as int);
    }

    #[verifier::rlimit(100)]
    #[verifier::spinoff_prover]
    fn read(buf: &[u8], pos: &mut usize) -> (r: Result<NewCarConnection, Error>) {
        let ghost s = buf@.skip(*pos as int);
        let ghost p0 = *pos;
        let f_server_info = match <WelcomeServerInfo as Readable>::read(buf, pos) {
            Ok(v) => v,
            Err(e) => {
                return Err(e);
            },
        };
        assert(buf@.skip(*pos as int) =~= s.skip(*pos - p0));
        let f_assists = match <WelcomeAssists as Readable>::read(buf, pos) {
            Ok(v) => v,
            Err(e) => {
                return Err(e);
            },
        };
        assert(buf@.skip(*pos as int) =~= s.skip(*pos - p0));
        let f_handicaps = match <WelcomeHandicaps as Readable>::read(buf, pos) {
            Ok(v) => v,
            Err(e) => {
                return Err(e);
            },
        };
        assert(buf@.skip(*pos as int) =~= s.skip(*pos - p0));
        let f_race_rules = match <WelcomeRaceRules as Readable>::read(buf, pos) {
            Ok(v) => v,
            Err(e) => {
                return Err(e);
            },
        };
        assert(buf@.skip(*pos as int) =~= s.skip(*pos - p0));
        let f_session_info = match <WelcomeSessionInfo as Readable>::read(buf, pos) {
            Ok(v) => v,
            Err(e) => {
                return Err(e);
            },
        };
        assert(buf@.skip(*pos as int) =~= s.skip(*pos - p0));
        let f_extras = match <WelcomeExtras as Readable>::read(buf, pos) {
            Ok(v) => v,
            Err(e) => {
                return Err(e);
            },
        };
        let v = NewCarConnection { server_info: f_server_info, assists: f_assists, handicaps: f_handicaps, race_rules: f_race_rules, session_info: f_session_info, extras: f_extras };
        assert(v@ =~= NewCarConnectionView { server_info: f_server_info@, assists: f_assists, handicaps: f_handicaps, race_rules: f_race_rules, session_info: f_session_info@, extras: f_extras@ });
        Ok(v)
    }
}

/// Handshake refusal: no free slot offers the requested car model.
#[derive(Debug, Clone, Copy, PartialEq, Eq, Structural)]
pub struct NoSlotsForCarModel {
}

impl View for NoSlotsForCarModel {
    type V = NoSlotsForCarModel;

    open spec fn view(&self) -> NoSlotsForCarModel {
        *self
    }
}

impl Writeable for NoSlotsForCarModel {
    open spec fn wf_v(w: NoSlotsForCarModel) -> bool {
        true
    }

    open spec fn enc_v(w: NoSlotsForCarModel) -> Seq<u8> {
        Seq::empty()
    }

    fn write(&self, buffer: &mut Vec<u8>) {
        assert(buffer@ =~= old(buffer)@ + Self::enc_v(self@));
    }
}

impl Readable for NoSlotsForCarModel {
    open spec fn dec_v(s: Seq<u8>) -> Option<(NoSlotsForCarModel, int)> {
        Some((NoSlotsForCarModel {  }, 0int))
    }

    open spec fn reads_to_end() -> bool {
        false
    }

    proof fn lemma_dec_sound(s: Seq<u8>) {
    }

    proof fn lemma_dec_complete(w: NoSlotsForCarModel, rest: Seq<u8>) {
        assert(Self::enc_v(w) + rest =~= rest);
        assert(w == NoSlotsForCarModel {  });
    }

    fn read(buf: &[u8], pos: &mut usize) -> (r: Result<NoSlotsForCarModel, Error>) {
        Ok(NoSlotsForCarModel {  })
    }
}

/// A chat line attributed to the sending car.
#[derive(Debug, Clone, PartialEq)]
pub struct Chat {
    pub car_id: u8,
    pub msg: WideString,
}

/// The mathematical view of [`Chat`].
#[verifier::ext_equal]
pub struct ChatView {
    pub car_id: u8,
    pub msg: Seq<u32>,
}

impl View for Chat {
    type V = ChatView;

    open spec fn view(&self) -> ChatView {
        ChatView {
            car_id: self.car_id,
            msg: self.msg@,
        }
    }
}

impl Writeable for Chat {
    open spec fn wf_v(w: ChatView) -> bool {
        <WideString as Writeable>::wf_v(w.msg)
    }

    open spec fn enc_v(w: ChatView) -> Seq<u8> {
        <u8 as Writeable>::enc_v(w.car_id) + <WideString as Writeable>::enc_v(w.msg)
    }

    fn write(&self, buffer: &mut Vec<u8>) {
        self.car_id.write(buffer);
        self.msg.write(buffer);
        assert(buffer@ =~= old(buffer)@ + Self::enc_v(self@));
    }
}

impl Readable for Chat {
    open spec fn dec_v(s: Seq<u8>) -> Option<(ChatView, int)> {
        match <u8 as Readable>::dec_v(s) {
            None => None,
            Some((car_id, n1)) => 
            match <WideString as Readable>::dec_v(s.skip(n1)) {
                None => None,
                Some((msg, n2)) => Some((ChatView { car_id, msg }, n1 + n2)),
            },
        }
    }

    open spec fn reads_to_end() -> bool {
        false
    }

    proof fn lemma_dec_sound(s: Seq<u8>) {
        <u8 as Readable>::lemma_dec_sound(s);
        if let Some((car_id, n1)) = <u8 as Readable>::dec_v(s) {
            <WideString as Readable>::lemma_dec_sound(s.skip(n1));
            if let Some((msg, n2)) = <WideString as Readable>::dec_v(s.skip(n1)) {
                assert(s.take(n1) + s.skip(n1).take(n2) =~= s.take(n1 + n2));
            }
        }
    }

    proof fn lemma_dec_complete(w: ChatView, rest: Seq<u8>) {
        let e1 = <u8 as Writeable>::enc_v(w.car_id);
        let e2 = <WideString as Writeable>::enc_v(w.msg);
        let r2 = rest;
        let r1 = e2 + r2;
        let s = Self::enc_v(w) + rest;
        assert(s =~= e1 + r1);
        <u8 as Readable>::lemma_dec_complete(w.car_id, r1);
        lemma_skip_concat(e1, r1);
        <WideString as Readable>::lemma_dec_complete(w.msg, r2);
        lemma_skip_concat(e2, r2);
        lemma_skip_skip(s, (e1.len()) as int, e2.len() as int);
    }

    fn read(buf: &[u8], pos: &mut usize) -> (r: Result<Chat, Error>) {
        let ghost s = buf@.skip(*pos as int);
        let ghost p0 = *pos;
        let f_car_id = match <u8 as Readable>::read(buf, pos) {
            Ok(v) => v,
            Err(e) => {
                return Err(e);
            },
        };
        assert(buf@.skip(*pos as int) =~= s.skip(*pos - p0));
        let f_msg = match <WideString as Readable>::read(buf, pos) {
            Ok(v) => v,
            Err(e) => {
                return Err(e);
            },
        };
        let v = Chat { car_id: f_car_id, msg: f_msg };
        assert(v@ =~= ChatView { car_id: f_car_id, msg: f_msg@ });
        Ok(v)
    }
}

/// The resolved current weather: temperatures, graphics name and wind.
#[derive(Debug, Clone, PartialEq)]
pub struct Weather {
    pub ambient: u8,
    pub road: u8,
    pub name: WideString,
    pub wind_speed: i16,
    pub wind_direction: i16,
}

/// The mathematical view of [`Weather`].
#[verifier::ext_equal]
pub struct WeatherView {
    pub ambient: u8,
    pub road: u8,
    pub name: Seq<u32>,
    pub wind_speed: i16,
    pub wind_direction: i16,
}

impl View for Weather {
    type V = WeatherView;

    open spec fn view(&self) -> WeatherView {
        WeatherView {
            ambient: self.ambient,
            road: self.road,
            name: self.name@,
            wind_speed: self.wind_speed,
            wind_direction: self.wind_direction,
        }
    }
}

impl Writeable for Weather {
    open spec fn wf_v(w: WeatherView) -> bool {
        <WideString as Writeable>::wf_v(w.name)
    }

    open spec fn enc_v(w: WeatherView) -> Seq<u8> {
        <u8 as Writeable>::enc_v(w.ambient) + <u8 as Writeable>::enc_v(w.road) + <WideString as Writeable>::enc_v(w.name) + <i16 as Writeable>::enc_v(w.wind_speed) + <i16 as Writeable>::enc_v(w.wind_direction)
    }

    fn write(&self, buffer: &mut Vec<u8>) {
        self.ambient.write(buffer);
        self.road.write(buffer);
        self.name.write(buffer);
        self.wind_speed.write(buffer);
        self.wind_direction.write(buffer);
        assert(buffer@ =~= old(buffer)@ + Self::enc_v(self@));
    }
}

impl Readable for Weather {
    open spec fn dec_v(s: Seq<u8>) -> Option<(WeatherView, int)> {
        match <u8 as Readable>::dec_v(s) {
            None => None,
            Some((ambient, n1)) => 
            match <u8 as Readable>::dec_v(s.skip(n1)) {
                None => None,
                Some((road, n2)) => 
                match <WideString as Readable>::dec_v(s.skip(n1 + n2)) {
                    None => None,
                    Some((name, n3)) => 
                    match <i16 as Readable>::dec_v(s.skip(n1 + n2 + n3)) {
                        None => None,
                        Some((wind_speed, n4)) => 
                        match <i16 as Readable>::dec_v(s.skip(n1 + n2 + n3 + n4)) {
                            None => None,
                            Some((wind_direction, n5)) => Some((WeatherView { ambient, road, name, wind_speed, wind_direction }, n1 + n2 + n3 + n4 + n5)),
                        },
                    },
                },
            },
        }
    }

    open spec fn reads_to_end() -> bool {
        false
    }

    proof fn lemma_dec_sound(s: Seq<u8>) {
        <u8 as Readable>::lemma_dec_sound(s);
        if let Some((ambient, n1)) = <u8 as Readable>::dec_v(s) {
            <u8 as Readable>::lemma_dec_sound(s.skip(n1));
            if let Some((road, n2)) = <u8 as Readable>::dec_v(s.skip(n1)) {
                <WideString as Readable>::lemma_dec_sound(s.skip(n1 + n2));
                if let Some((name, n3)) = <WideString as Readable>::dec_v(s.skip(n1 + n2)) {
                    <i16 as Readable>::lemma_dec_sound(s.skip(n1 + n2 + n3));
                    if let Some((wind_speed, n4)) = <i16 as Readable>::dec_v(s.skip(n1 + n2 + n3)) {
                        <i16 as Readable>::lemma_dec_sound(s.skip(n1 + n2 + n3 + n4));
                        if let Some((wind_direction, n5)) = <i16 as Readable>::dec_v(s.skip(n1 + n2 + n3 + n4)) {
                            assert(s.take(n1) + s.skip(n1).take(n2) =~= s.take(n1 + n2));
                            assert(s.take(n1 + n2) + s.skip(n1 + n2).take(n3) =~= s.take(n1 + n2 + n3));
                            assert(s.take(n1 + n2 + n3) + s.skip(n1 + n2 + n3).take(n4) =~= s.take(n1 + n2 + n3 + n4));
                            assert(s.take(n1 + n2 + n3 + n4) + s.skip(n1 + n2 + n3 + n4).take(n5) =~= s.take(n1 + n2 + n3 + n4 + n5));
                        }
                    }
                }
            }
        }
    }

    proof fn lemma_dec_complete(w: WeatherView, rest: Seq<u8>) {
        let e1 = <u8 as Writeable>::enc_v(w.ambient);
        let e2 = <u8 as Writeable>::enc_v(w.road);
        let e3 = <WideString as Writeable>::enc_v(w.name);
        let e4 = <i16 as Writeable>::enc_v(w.wind_speed);
        let e5 = <i16 as Writeable>::enc_v(w.wind_direction);
        let r5 = rest;
        let r4 = e5 + r5;
        let r3 = e4 + r4;
        let r2 = e3 + r3;
        let r1 = e2 + r2;
        let s = Self::enc_v(w) + rest;
        assert(s =~= e1 + r1);
        <u8 as Readable>::lemma_dec_complete(w.ambient, r1);
        lemma_skip_concat(e1, r1);
        <u8 as Readable>::lemma_dec_complete(w.road, r2);
        lemma_skip_concat(e2, r2);
        lemma_skip_skip(s, (e1.len()) as int, e2.len() as int);
        <WideString as Readable>::lemma_dec_complete(w.name, r3);
        lemma_skip_concat(e3, r3);
        lemma_skip_skip(s, (e1.len() + e2.len()) as int, e3.len() as int);
        <i16 as Readable>::lemma_dec_complete(w.wind_speed, r4);
        lemma_skip_concat(e4, r4);
        lemma_skip_skip(s, (e1.len() + e2.len() + e3.len()) as int, e4.len() as int);
        <i16 as Readable>::lemma_dec_complete(w.wind_direction, r5);
        lemma_skip_concat(e5, r5);
        lemma_skip_skip(s, (e1.len() + e2.len() + e3.len() + e4.len()) as int, e5.len() as int);
    }

    fn read(buf: &[u8], pos: &mut usize) -> (r: Result<Weather, Error>) {
        let ghost s = buf@.skip(*pos as int);
        let ghost p0 = *pos;
        let f_ambient = match <u8 as Readable>::read(buf, pos) {
            Ok(v) => v,
            Err(e) => {
                return Err(e);
            },
        };
        assert(buf@.skip(*pos as int) =~= s.skip(*pos - p0));
        let f_road = match <u8 as Readable>::read(buf, pos) {
            Ok(v) => v,
            Err(e) => {
                return Err(e);
            },
        };
        assert(buf@.skip(*pos as int) =~= s.skip(*pos - p0));
        let f_name = match <WideString as Readable>::read(buf, pos) {
            Ok(v) => v,
            Err(e) => {
                return Err(e);
            },
        };
        assert(buf@.skip(*pos as int) =~= s.skip(*pos - p0));
        let f_wind_speed = match <i16 as Readable>::read(buf, pos) {
            Ok(v) => v,
            Err(e) => {
                return Err(e);
            },
        };
        assert(buf@.skip(*pos as int) =~= s.skip(*pos - p0));
        let f_wind_direction = match <i16 as Readable>::read(buf, pos) {
            Ok(v) => v,
            Err(e) => {
                return Err(e);
            },
        };
        let v = Weather { ambient: f_ambient, road: f_road, name: f_name, wind_speed: f_wind_speed, wind_direction: f_wind_direction };
        assert(v@ =~= WeatherView { ambient: f_ambient, road: f_road, name: f_name@, wind_speed: f_wind_speed, wind_direction: f_wind_direction });
        Ok(v)
    }
}

/// A driver was kicked, with the reason byte.
#[derive(Debug, Clone, Copy, PartialEq, Eq, Structural)]
pub struct Kick {
    pub car_id: u8,
    pub reason: u8,
}

impl View for Kick {
    type V = Kick;

    open spec fn view(&self) -> Kick {
        *self
    }
}

impl Writeable for Kick {
    open spec fn wf_v(w: Kick) -> bool {
        true
    }

    open spec fn enc_v(w: Kick) -> Seq<u8> {
        <u8 as Writeable>::enc_v(w.car_id) + <u8 as Writeable>::enc_v(w.reason)
    }

    fn write(&self, buffer: &mut Vec<u8>) {
        self.car_id.write(buffer);
        self.reason.write(buffer);
        assert(buffer@ =~= old(buffer)@ + Self::enc_v(self@));
    }
}

impl Readable for Kick {
    open spec fn dec_v(s: Seq<u8>) -> Option<(Kick, int)> {
        match <u8 as Readable>::dec_v(s) {
            None => None,
            Some((car_id, n1)) => 
            match <u8 as Readable>::dec_v(s.skip(n1)) {
                None => None,
                Some((reason, n2)) => Some((Kick { car_id, reason }, n1 + n2)),
            },
        }
    }

    open spec fn reads_to_end() -> bool {
        false
    }

    proof fn lemma_dec_sound(s: Seq<u8>) {
        <u8 as Readable>::lemma_dec_sound(s);
        if let Some((car_id, n1)) = <u8 as Readable>::dec_v(s) {
            <u8 as Readable>::lemma_dec_sound(s.skip(n1));
            if let Some((reason, n2)) = <u8 as Readable>::dec_v(s.skip(n1)) {
                assert(s.take(n1) + s.skip(n1).take(n2) =~= s.take(n1 + n2));
            }
        }
    }

    proof fn lemma_dec_complete(w: Kick, rest: Seq<u8>) {
        let e1 = <u8 as Writeable>::enc_v(w.car_id);
        let e2 = <u8 as Writeable>::enc_v(w.reason);
        let r2 = rest;
        let r1 = e2 + r2;
        let s = Self::enc_v(w) + rest;
        assert(s =~= e1 + r1);
        <u8 as Readable>::lemma_dec_complete(w.car_id, r1);
        lemma_skip_concat(e1, r1);
        <u8 as Readable>::lemma_dec_complete(w.reason, r2);
        lemma_skip_concat(e2, r2);
        lemma_skip_skip(s, (e1.len()) as int, e2.len() as int);
    }

    fn read(buf: &[u8], pos: &mut usize) -> (r: Result<Kick, Error>) {
        let ghost s = buf@.skip(*pos as int);
        let ghost p0 = *pos;
        let f_car_id = match <u8 as Readable>::read(buf, pos) {
            Ok(v) => v,
            Err(e) => {
                return Err(e);
            },
        };
        assert(buf@.skip(*pos as int) =~= s.skip(*pos - p0));
        let f_reason = match <u8 as Readable>::read(buf, pos) {
            Ok(v) => v,
            Err(e) => {
                return Err(e);
            },
        };
        let v = Kick { car_id: f_car_id, reason: f_reason };
        Ok(v)
    }
}

/// Broadcast after a lap completion: who, the lap time and cuts, the
/// full lap ledger and the current grip.
#[derive(Debug, Clone, PartialEq)]
pub struct LapCompleted {
    pub car_id: u8,
    pub laptime: u32,
    pub cuts: u8,
    pub laps: Vec<Lap>,
    pub grip_level: F32,
}

/// The mathematical view of [`LapCompleted`].
#[verifier::ext_equal]
pub struct LapCompletedView {
    pub car_id: u8,
    pub laptime: u32,
    pub cuts: u8,
    pub laps: Seq<Lap>,
    pub grip_level: F32,
}

impl View for LapCompleted {
    type V = LapCompletedView;

    open spec fn view(&self) -> LapCompletedView {
        LapCompletedView {
            car_id: self.car_id,
            laptime: self.laptime,
            cuts: self.cuts,
            laps: views_of(self.laps@),
            grip_level: self.grip_level,
        }
    }
}

impl Writeable for LapCompleted {
    open spec fn wf_v(w: LapCompletedView) -> bool {
        wf_u8_vec::<Lap>(w.laps)
    }

    open spec fn enc_v(w: LapCompletedView) -> Seq<u8> {
        <u8 as Writeable>::enc_v(w.car_id) + <u32 as Writeable>::enc_v(w.laptime) + <u8 as Writeable>::enc_v(w.cuts) + enc_u8_vec::<Lap>(w.laps) + <F32 as Writeable>::enc_v(w.grip_level)
    }

    fn write(&self, buffer: &mut Vec<u8>) {
        self.car_id.write(buffer);
        self.laptime.write(buffer);
        self.cuts.write(buffer);
        write_u8_vec::<Lap>(&self.laps, buffer);
        self.grip_level.write(buffer);
        assert(buffer@ =~= old(buffer)@ + Self::enc_v(self@));
    }
}

impl Readable for LapCompleted {
    open spec fn dec_v(s: Seq<u8>) -> Option<(LapCompletedView, int)> {
        match <u8 as Readable>::dec_v(s) {
            None => None,
            Some((car_id, n1)) => 
            match <u32 as Readable>::dec_v(s.skip(n1)) {
                None => None,
                Some((laptime, n2)) => 
                match <u8 as Readable>::dec_v(s.skip(n1 + n2)) {
                    None => None,
                    Some((cuts, n3)) => 
                    match dec_u8_vec::<Lap>(s.skip(n1 + n2 + n3)) {
                        None => None,
                        Some((laps, n4)) => 
                        match <F32 as Readable>::dec_v(s.skip(n1 + n2 + n3 + n4)) {
                            None => None,
                            Some((grip_level, n5)) => Some((LapCompletedView { car_id, laptime, cuts, laps, grip_level }, n1 + n2 + n3 + n4 + n5)),
                        },
                    },
                },
            },
        }
    }

    open spec fn reads_to_end() -> bool {
        false
    }

    proof fn lemma_dec_sound(s: Seq<u8>) {
        <u8 as Readable>::lemma_dec_sound(s);
        if let Some((car_id, n1)) = <u8 as Readable>::dec_v(s) {
            <u32 as Readable>::lemma_dec_sound(s.skip(n1));
            if let Some((laptime, n2)) = <u32 as Readable>::dec_v(s.skip(n1)) {
                <u8 as Readable>::lemma_dec_sound(s.skip(n1 + n2));
                if let Some((cuts, n3)) = <u8 as Readable>::dec_v(s.skip(n1 + n2)) {
                    lemma_dec_u8_vec_sound::<Lap>(s.skip(n1 + n2 + n3));
                    if let Some((laps, n4)) = dec_u8_vec::<Lap>(s.skip(n1 + n2 + n3)) {
                        <F32 as Readable>::lemma_dec_sound(s.skip(n1 + n2 + n3 + n4));
                        if let Some((grip_level, n5)) = <F32 as Readable>::dec_v(s.skip(n1 + n2 + n3 + n4)) {
                            assert(s.take(n1) + s.skip(n1).take(n2) =~= s.take(n1 + n2));
                            assert(s.take(n1 + n2) + s.skip(n1 + n2).take(n3) =~= s.take(n1 + n2 + n3));
                            assert(s.take(n1 + n2 + n3) + s.skip(n1 + n2 + n3).take(n4) =~= s.take(n1 + n2 + n3 + n4));
                            assert(s.take(n1 + n2 + n3 + n4) + s.skip(n1 + n2 + n3 + n4).take(n5) =~= s.take(n1 + n2 + n3 + n4 + n5));
                        }
                    }
                }
            }
        }
    }

    proof fn lemma_dec_complete(w: LapCompletedView, rest: Seq<u8>) {
        let e1 = <u8 as Writeable>::enc_v(w.car_id);
        let e2 = <u32 as Writeable>::enc_v(w.laptime);
        let e3 = <u8 as Writeable>::enc_v(w.cuts);
        let e4 = enc_u8_vec::<Lap>(w.laps);
        let e5 = <F32 as Writeable>::enc_v(w.grip_level);
        let r5 = rest;
        let r4 = e5 + r5;
        let r3 = e4 + r4;
        let r2 = e3 + r3;
        let r1 = e2 + r2;
        let s = Self::enc_v(w) + rest;
        assert(s =~= e1 + r1);
        <u8 as Readable>::lemma_dec_complete(w.car_id, r1);
        lemma_skip_concat(e1, r1);
        <u32 as Readable>::lemma_dec_complete(w.laptime, r2);
        lemma_skip_concat(e2, r2);
        lemma_skip_skip(s, (e1.len()) as int, e2.len() as int);
        <u8 as Readable>::lemma_dec_complete(w.cuts, r3);
        lemma_skip_concat(e3, r3);
        lemma_skip_skip(s, (e1.len() + e2.len()) as int, e3.len() as int);
        assert(!<Lap as Readable>::reads_to_end());
        lemma_dec_u8_vec_complete::<Lap>(w.laps, r4);
        lemma_skip_concat(e4, r4);
        lemma_skip_skip(s, (e1.len() + e2.len() + e3.len()) as int, e4.len() as int);
        <F32 as Readable>::lemma_dec_complete(w.grip_level, r5);
        lemma_skip_concat(e5, r5);
        lemma_skip_skip(s, (e1.len() + e2.len() + e3.len() + e4.len()) as int, e5.len() as int);
    }

    fn read(buf: &[u8], pos: &mut usize) -> (r: Result<LapCompleted, Error>) {
        let ghost s = buf@.skip(*pos as int);
        let ghost p0 = *pos;
        let f_car_id = match <u8 as Readable>::read(buf, pos) {
            Ok(v) => v,
            Err(e) => {
                return Err(e);
            },
        };
        assert(buf@.skip(*pos as int) =~= s.skip(*pos - p0));
        let f_laptime = match <u32 as Readable>::read(buf, pos) {
            Ok(v) => v,
            Err(e) => {
                return Err(e);
            },
        };
        assert(buf@.skip(*pos as int) =~= s.skip(*pos - p0));
        let f_cuts = match <u8 as Readable>::read(buf, pos) {
            Ok(v) => v,
            Err(e) => {
                return Err(e);
            },
        };
        assert(buf@.skip(*pos as int) =~= s.skip(*pos - p0));
        let f_laps = match read_u8_vec::<Lap>(buf, pos) {
            Ok(v) => v,
            Err(e) => {
                return Err(e);
            },
        };
        assert(buf@.skip(*pos as int) =~= s.skip(*pos - p0));
        let f_grip_level = match <F32 as Readable>::read(buf, pos) {
            Ok(v) => v,
            Err(e) => {
                return Err(e);
            },
        };
        let v = LapCompleted { car_id: f_car_id, laptime: f_laptime, cuts: f_cuts, laps: f_laps, grip_level: f_grip_level };
        assert(v@ =~= LapCompletedView { car_id: f_car_id, laptime: f_laptime, cuts: f_cuts, laps: views_of(f_laps@), grip_level: f_grip_level });
        Ok(v)
    }
}

/// Whether the given car has satisfied its mandatory pit stop.
#[derive(Debug, Clone, Copy, PartialEq, Eq, Structural)]
pub struct MandatoryPit {
    pub car_id: u8,
    pub mandatory_pit: bool,
}

impl View for MandatoryPit {
    type V = MandatoryPit;

    open spec fn view(&self) -> MandatoryPit {
        *self
    }
}

impl Writeable for MandatoryPit {
    open spec fn wf_v(w: MandatoryPit) -> bool {
        true
    }

    open spec fn enc_v(w: MandatoryPit) -> Seq<u8> {
        <u8 as Writeable>::enc_v(w.car_id) + <bool as Writeable>::enc_v(w.mandatory_pit)
    }

    fn write(&self, buffer: &mut Vec<u8>) {
        self.car_id.write(buffer);
        self.mandatory_pit.write(buffer);
        assert(buffer@ =~= old(buffer)@ + Self::enc_v(self@));
    }
}

impl Readable for MandatoryPit {
    open spec fn dec_v(s: Seq<u8>) -> Option<(MandatoryPit, int)> {
        match <u8 as Readable>::dec_v(s) {
            None => None,
            Some((car_id, n1)) => 
            match <bool as Readable>::dec_v(s.skip(n1)) {
                None => None,
                Some((mandatory_pit, n2)) => Some((MandatoryPit { car_id, mandatory_pit }, n1 + n2)),
            },
        }
    }

    open spec fn reads_to_end() -> bool {
        false
    }

    proof fn lemma_dec_sound(s: Seq<u8>) {
        <u8 as Readable>::lemma_dec_sound(s);
        if let Some((car_id, n1)) = <u8 as Readable>::dec_v(s) {
            <bool as Readable>::lemma_dec_sound(s.skip(n1));
            if let Some((mandatory_pit, n2)) = <bool as Readable>::dec_v(s.skip(n1)) {
                assert(s.take(n1) + s.skip(n1).take(n2) =~= s.take(n1 + n2));
            }
        }
    }

    proof fn lemma_dec_complete(w: MandatoryPit, rest: Seq<u8>) {
        let e1 = <u8 as Writeable>::enc_v(w.car_id);
        let e2 = <bool as Writeable>::enc_v(w.mandatory_pit);
        let r2 = rest;
        let r1 = e2 + r2;
        let s = Self::enc_v(w) + rest;
        assert(s =~= e1 + r1);
        <u8 as Readable>::lemma_dec_complete(w.car_id, r1);
        lemma_skip_concat(e1, r1);
        <bool as Readable>::lemma_dec_complete(w.mandatory_pit, r2);
        lemma_skip_concat(e2, r2);
        lemma_skip_skip(s, (e1.len()) as int, e2.len() as int);
    }

    fn read(buf: &[u8], pos: &mut usize) -> (r: Result<MandatoryPit, Error>) {
        let ghost s = buf@.skip(*pos as int);
        let ghost p0 = *pos;
        let f_car_id = match <u8 as Readable>::read(buf, pos) {
            Ok(v) => v,
            Err(e) => {
                return Err(e);
            },
        };
        assert(buf@.skip(*pos as int) =~= s.skip(*pos - p0));
        let f_mandatory_pit = match <bool as Readable>::read(buf, pos) {
            Ok(v) => v,
            Err(e) => {
                return Err(e);
            },
        };
        let v = MandatoryPit { car_id: f_car_id, mandatory_pit: f_mandatory_pit };
        Ok(v)
    }
}

/// The given car changed its tyre compound.
#[derive(Debug, Clone, PartialEq)]
pub struct ChangeTireCompound {
    pub car_id: u8,
    pub tire_compound: ByteString,
}

/// The mathematical view of [`ChangeTireCompound`].
#[verifier::ext_equal]
pub struct ChangeTireCompoundView {
    pub car_id: u8,
    pub tire_compound: Seq<u8>,
}

impl View for ChangeTireCompound {
    type V = ChangeTireCompoundView;

    open spec fn view(&self) -> ChangeTireCompoundView {
        ChangeTireCompoundView {
            car_id: self.car_id,
            tire_compound: self.tire_compound@,
        }
    }
}

impl Writeable for ChangeTireCompound {
    open spec fn wf_v(w: ChangeTireCompoundView) -> bool {
        <ByteString as Writeable>::wf_v(w.tire_compound)
    }

    open spec fn enc_v(w: ChangeTireCompoundView) -> Seq<u8> {
        <u8 as Writeable>::enc_v(w.car_id) + <ByteString as Writeable>::enc_v(w.tire_compound)
    }

    fn write(&self, buffer: &mut Vec<u8>) {
        self.car_id.write(buffer);
        self.tire_compound.write(buffer);
        assert(buffer@ =~= old(buffer)@ + Self::enc_v(self@));
    }
}

impl Readable for ChangeTireCompound {
    open spec fn dec_v(s: Seq<u8>) -> Option<(ChangeTireCompoundView, int)> {
        match <u8 as Readable>::dec_v(s) {
            None => None,
            Some((car_id, n1)) => 
            match <ByteString as Readable>::dec_v(s.skip(n1)) {
                None => None,
                Some((tire_compound, n2)) => Some((ChangeTireCompoundView { car_id, tire_compound }, n1 + n2)),
            },
        }
    }

    open spec fn reads_to_end() -> bool {
        false
    }

    proof fn lemma_dec_sound(s: Seq<u8>) {
        <u8 as Readable>::lemma_dec_sound(s);
        if let Some((car_id, n1)) = <u8 as Readable>::dec_v(s) {
            <ByteString as Readable>::lemma_dec_sound(s.skip(n1));
            if let Some((tire_compound, n2)) = <ByteString as Readable>::dec_v(s.skip(n1)) {
                assert(s.take(n1) + s.skip(n1).take(n2) =~= s.take(n1 + n2));
            }
        }
    }

    proof fn lemma_dec_complete(w: ChangeTireCompoundView, rest: Seq<u8>) {
        let e1 = <u8 as Writeable>::enc_v(w.car_id);
        let e2 = <ByteString as Writeable>::enc_v(w.tire_compound);
        let r2 = rest;
        let r1 = e2 + r2;
        let s = Self::enc_v(w) + rest;
        assert(s =~= e1 + r1);
        <u8 as Readable>::lemma_dec_complete(w.car_id, r1);
        lemma_skip_concat(e1, r1);
        <ByteString as Readable>::lemma_dec_complete(w.tire_compound, r2);
        lemma_skip_concat(e2, r2);
        lemma_skip_skip(s, (e1.len()) as int, e2.len() as int);
    }

    fn read(buf: &[u8], pos: &mut usize) -> (r: Result<ChangeTireCompound, Error>) {
        let ghost s = buf@.skip(*pos as int);
        let ghost p0 = *pos;
        let f_car_id = match <u8 as Readable>::read(buf, pos) {
            Ok(v) => v,
            Err(e) => {
                return Err(e);
            },
        };
        assert(buf@.skip(*pos as int) =~= s.skip(*pos - p0));
        let f_tire_compound = match <ByteString as Readable>::read(buf, pos) {
            Ok(v) => v,
            Err(e) => {
                return Err(e);
            },
        };
        let v = ChangeTireCompound { car_id: f_car_id, tire_compound: f_tire_compound };
        assert(v@ =~= ChangeTireCompoundView { car_id: f_car_id, tire_compound: f_tire_compound@ });
        Ok(v)
    }
}

/// A fixed car setup pushed to a client.
#[derive(Debug, Clone, PartialEq)]
pub struct CarSetup {
    pub unknown: u8,
    pub fixed: bool,
    pub setups: Vec<Setup>,
}

/// The mathematical view of [`CarSetup`].
#[verifier::ext_equal]
pub struct CarSetupView {
    pub unknown: u8,
    pub fixed: bool,
    pub setups: Seq<SetupView>,
}

impl View for CarSetup {
    type V = CarSetupView;

    open spec fn view(&self) -> CarSetupView {
        CarSetupView {
            unknown: self.unknown,
            fixed: self.fixed,
            setups: views_of(self.setups@),
        }
    }
}

impl Writeable for CarSetup {
    open spec fn wf_v(w: CarSetupView) -> bool {
        wf_u8_vec::<Setup>(w.setups)
    }

    open spec fn enc_v(w: CarSetupView) -> Seq<u8> {
        <u8 as Writeable>::enc_v(w.unknown) + <bool as Writeable>::enc_v(w.fixed) + enc_u8_vec::<Setup>(w.setups)
    }

    fn write(&self, buffer: &mut Vec<u8>) {
        self.unknown.write(buffer);
        self.fixed.write(buffer);
        write_u8_vec::<Setup>(&self.setups, buffer);
        assert(buffer@ =~= old(buffer)@ + Self::enc_v(self@));
    }
}

impl Readable for CarSetup {
    open spec fn dec_v(s: Seq<u8>) -> Option<(CarSetupView, int)> {
        match <u8 as Readable>::dec_v(s) {
            None => None,
            Some((unknown, n1)) => 
            match <bool as Readable>::dec_v(s.skip(n1)) {
                None => None,
                Some((fixed, n2)) => 
                match dec_u8_vec::<Setup>(s.skip(n1 + n2)) {
                    None => None,
                    Some((setups, n3)) => Some((CarSetupView { unknown, fixed, setups }, n1 + n2 + n3)),
                },
            },
        }
    }

    open spec fn reads_to_end() -> bool {
        false
    }

    proof fn lemma_dec_sound(s: Seq<u8>) {
        <u8 as Readable>::lemma_dec_sound(s);
        if let Some((unknown, n1)) = <u8 as Readable>::dec_v(s) {
            <bool as Readable>::lemma_dec_sound(s.skip(n1));
            if let Some((fixed, n2)) = <bool as Readable>::dec_v(s.skip(n1)) {
                lemma_dec_u8_vec_sound::<Setup>(s.skip(n1 + n2));
                if let Some((setups, n3)) = dec_u8_vec::<Setup>(s.skip(n1 + n2)) {
                    assert(s.take(n1) + s.skip(n1).take(n2) =~= s.take(n1 + n2));
                    assert(s.take(n1 + n2) + s.skip(n1 + n2).take(n3) =~= s.take(n1 + n2 + n3));
                }
            }
        }
    }

    proof fn lemma_dec_complete(w: CarSetupView, rest: Seq<u8>) {
        let e1 = <u8 as Writeable>::enc_v(w.unknown);
        let e2 = <bool as Writeable>::enc_v(w.fixed);
        let e3 = enc_u8_vec::<Setup>(w.setups);
        let r3 = rest;
        let r2 = e3 + r3;
        let r1 = e2 + r2;
        let s = Self::enc_v(w) + rest;
        assert(s =~= e1 + r1);
        <u8 as Readable>::lemma_dec_complete(w.unknown, r1);
        lemma_skip_concat(e1, r1);
        <bool as Readable>::lemma_dec_complete(w.fixed, r2);
        lemma_skip_concat(e2, r2);
        lemma_skip_skip(s, (e1.len()) as int, e2.len() as int);
        assert(!<Setup as Readable>::reads_to_end());
        lemma_dec_u8_vec_complete::<Setup>(w.setups, r3);
        lemma_skip_concat(e3, r3);
        lemma_skip_skip(s, (e1.len() + e2.len()) as int, e3.len() as int);
    }

    fn read(buf: &[u8], pos: &mut usize) -> (r: Result<CarSetup, Error>) {
        let ghost s = buf@.skip(*pos as int);
        let ghost p0 = *pos;
        let f_unknown = match <u8 as Readable>::read(buf, pos) {
            Ok(v) => v,
            Err(e) => {
                return Err(e);
            },
        };
        assert(buf@.skip(*pos as int) =~= s.skip(*pos - p0));
        let f_fixed = match <bool as Readable>::read(buf, pos) {
            Ok(v) => v,
            Err(e) => {
                return Err(e);
            },
        };
        assert(buf@.skip(*pos as int) =~= s.skip(*pos - p0));
        let f_setups = match read_u8_vec::<Setup>(buf, pos) {
            Ok(v) => v,
            Err(e) => {
                return Err(e);
            },
        };
        let v = CarSetup { unknown: f_unknown, fixed: f_fixed, setups: f_setups };
        assert(v@ =~= CarSetupView { unknown: f_unknown, fixed: f_fixed, setups: views_of(f_setups@) });
        Ok(v)
    }
}

/// The current sun angle, in degrees as float bits.
#[derive(Debug, Clone, Copy, PartialEq, Eq, Structural)]
pub struct SunAngle {
    pub sun_angle: F32,
}

impl View for SunAngle {
    type V = SunAngle;

    open spec fn view(&self) -> SunAngle {
        *self
    }
}

impl Writeable for SunAngle {
    open spec fn wf_v(w: SunAngle) -> bool {
        true
    }

    open spec fn enc_v(w: SunAngle) -> Seq<u8> {
        <F32 as Writeable>::enc_v(w.sun_angle)
    }

    fn write(&self, buffer: &mut Vec<u8>) {
        self.sun_angle.write(buffer);
        assert(buffer@ =~= old(buffer)@ + Self::enc_v(self@));
    }
}

impl Readable for SunAngle {
    open spec fn dec_v(s: Seq<u8>) -> Option<(SunAngle, int)> {
        match <F32 as Readable>::dec_v(s) {
            None => None,
            Some((sun_angle, n1)) => Some((SunAngle { sun_angle }, n1)),
        }
    }

    open spec fn reads_to_end() -> bool {
        false
    }

    proof fn lemma_dec_sound(s: Seq<u8>) {
        <F32 as Readable>::lemma_dec_sound(s);
        if let Some((sun_angle, n1)) = <F32 as Readable>::dec_v(s) {
        }
    }

    proof fn lemma_dec_complete(w: SunAngle, rest: Seq<u8>) {
        let e1 = <F32 as Writeable>::enc_v(w.sun_angle);
        let r1 = rest;
        let s = Self::enc_v(w) + rest;
        assert(s =~= e1 + r1);
        <F32 as Readable>::lemma_dec_complete(w.sun_angle, r1);
        lemma_skip_concat(e1, r1);
    }

    fn read(buf: &[u8], pos: &mut usize) -> (r: Result<SunAngle, Error>) {
        let ghost s = buf@.skip(*pos as int);
        let ghost p0 = *pos;
        let f_sun_angle = match <F32 as Readable>::read(buf, pos) {
            Ok(v) => v,
            Err(e) => {
                return Err(e);
            },
        };
        let v = SunAngle { sun_angle: f_sun_angle };
        Ok(v)
    }
}

/// A liveness probe carrying the send time and the last round trip.
#[derive(Debug, Clone, Copy, PartialEq, Eq, Structural)]
pub struct Ping {
    pub last_ping_time: u32,
    pub ping: u16,
}

impl View for Ping {
    type V = Ping;

    open spec fn view(&self) -> Ping {
        *self
    }
}

impl Writeable for Ping {
    open spec fn wf_v(w: Ping) -> bool {
        true
    }

    open spec fn enc_v(w: Ping) -> Seq<u8> {
        <u32 as Writeable>::enc_v(w.last_ping_time) + <u16 as Writeable>::enc_v(w.ping)
    }

    fn write(&self, buffer: &mut Vec<u8>) {
        self.last_ping_time.write(buffer);
        self.ping.write(buffer);
        assert(buffer@ =~= old(buffer)@ + Self::enc_v(self@));
    }
}

impl Readable for Ping {
    open spec fn dec_v(s: Seq<u8>) -> Option<(Ping, int)> {
        match <u32 as Readable>::dec_v(s) {
            None => None,
            Some((last_ping_time, n1)) => 
            match <u16 as Readable>::dec_v(s.skip(n1)) {
                None => None,
                Some((ping, n2)) => Some((Ping { last_ping_time, ping }, n1 + n2)),
            },
        }
    }

    open spec fn reads_to_end() -> bool {
        false
    }

    proof fn lemma_dec_sound(s: Seq<u8>) {
        <u32 as Readable>::lemma_dec_sound(s);
        if let Some((last_ping_time, n1)) = <u32 as Readable>::dec_v(s) {
            <u16 as Readable>::lemma_dec_sound(s.skip(n1));
            if let Some((ping, n2)) = <u16 as Readable>::dec_v(s.skip(n1)) {
                assert(s.take(n1) + s.skip(n1).take(n2) =~= s.take(n1 + n2));
            }
        }
    }

    proof fn lemma_dec_complete(w: Ping, rest: Seq<u8>) {
        let e1 = <u32 as Writeable>::enc_v(w.last_ping_time);
        let e2 = <u16 as Writeable>::enc_v(w.ping);
        let r2 = rest;
        let r1 = e2 + r2;
        let s = Self::enc_v(w) + rest;
        assert(s =~= e1 + r1);
        <u32 as Readable>::lemma_dec_complete(w.last_ping_time, r1);
        lemma_skip_concat(e1, r1);
        <u16 as Readable>::lemma_dec_complete(w.ping, r2);
        lemma_skip_concat(e2, r2);
        lemma_skip_skip(s, (e1.len()) as int, e2.len() as int);
    }

    fn read(buf: &[u8], pos: &mut usize) -> (r: Result<Ping, Error>) {
        let ghost s = buf@.skip(*pos as int);
        let ghost p0 = *pos;
        let f_last_ping_time = match <u32 as Readable>::read(buf, pos) {
            Ok(v) => v,
            Err(e) => {
                return Err(e);
            },
        };
        assert(buf@.skip(*pos as int) =~= s.skip(*pos - p0));
        let f_ping = match <u16 as Readable>::read(buf, pos) {
            Ok(v) => v,
            Err(e) => {
                return Err(e);
            },
        };
        let v = Ping { last_ping_time: f_last_ping_time, ping: f_ping };
        Ok(v)
    }
}

/// Balance of performance for every car.
#[derive(Debug, Clone, PartialEq)]
pub struct Bops {
    pub cars: Vec<Bop>,
}

/// The mathematical view of [`Bops`].
#[verifier::ext_equal]
pub struct BopsView {
    pub cars: Seq<Bop>,
}

impl View for Bops {
    type V = BopsView;

    open spec fn view(&self) -> BopsView {
        BopsView {
            cars: views_of(self.cars@),
        }
    }
}

impl Writeable for Bops {
    open spec fn wf_v(w: BopsView) -> bool {
        wf_u8_vec::<Bop>(w.cars)
    }

    open spec fn enc_v(w: BopsView) -> Seq<u8> {
        enc_u8_vec::<Bop>(w.cars)
    }

    fn write(&self, buffer: &mut Vec<u8>) {
        write_u8_vec::<Bop>(&self.cars, buffer);
        assert(buffer@ =~= old(buffer)@ + Self::enc_v(self@));
    }
}

impl Readable for Bops {
    open spec fn dec_v(s: Seq<u8>) -> Option<(BopsView, int)> {
        match dec_u8_vec::<Bop>(s) {
            None => None,
            Some((cars, n1)) => Some((BopsView { cars }, n1)),
        }
    }

    open spec fn reads_to_end() -> bool {
        false
    }

    proof fn lemma_dec_sound(s: Seq<u8>) {
        lemma_dec_u8_vec_sound::<Bop>(s);
        if let Some((cars, n1)) = dec_u8_vec::<Bop>(s) {
        }
    }

    proof fn lemma_dec_complete(w: BopsView, rest: Seq<u8>) {
        let e1 = enc_u8_vec::<Bop>(w.cars);
        let r1 = rest;
        let s = Self::enc_v(w) + rest;
        assert(s =~= e1 + r1);
        assert(!<Bop as Readable>::reads_to_end());
        lemma_dec_u8_vec_complete::<Bop>(w.cars, r1);
        lemma_skip_concat(e1, r1);
    }

    fn read(buf: &[u8], pos: &mut usize) -> (r: Result<Bops, Error>) {
        let ghost s = buf@.skip(*pos as int);
        let ghost p0 = *pos;
        let f_cars = match read_u8_vec::<Bop>(buf, pos) {
            Ok(v) => v,
            Err(e) => {
                return Err(e);
            },
        };
        let v = Bops { cars: f_cars };
        assert(v@ =~= BopsView { cars: views_of(f_cars@) });
        Ok(v)
    }
}

/// The current session no longer accepts entries.
#[derive(Debug, Clone, Copy, PartialEq, Eq, Structural)]
pub struct SessionClosed {
}

impl View for SessionClosed {
    type V = SessionClosed;

    open spec fn view(&self) -> SessionClosed {
        *self
    }
}

impl Writeable for SessionClosed {
    open spec fn wf_v(w: SessionClosed) -> bool {
        true
    }

    open spec fn enc_v(w: SessionClosed) -> Seq<u8> {
        Seq::empty()
    }

    fn write(&self, buffer: &mut Vec<u8>) {
        assert(buffer@ =~= old(buffer)@ + Self::enc_v(self@));
    }
}

impl Readable for SessionClosed {
    open spec fn dec_v(s: Seq<u8>) -> Option<(SessionClosed, int)> {
        Some((SessionClosed {  }, 0int))
    }

    open spec fn reads_to_end() -> bool {
        false
    }

    proof fn lemma_dec_sound(s: Seq<u8>) {
    }

    proof fn lemma_dec_complete(w: SessionClosed, rest: Seq<u8>) {
        assert(Self::enc_v(w) + rest =~= rest);
        assert(w == SessionClosed {  });
    }

    fn read(buf: &[u8], pos: &mut usize) -> (r: Result<SessionClosed, Error>) {
        Ok(SessionClosed {  })
    }
}

/// A wide-string frame whose meaning is not modelled.
#[derive(Debug, Clone, PartialEq)]
pub struct Unknown {
    pub unknown: WideString,
}

/// The mathematical view of [`Unknown`].
#[verifier::ext_equal]
pub struct UnknownView {
    pub unknown: Seq<u32>,
}

impl View for Unknown {
    type V = UnknownView;

    open spec fn view(&self) -> UnknownView {
        UnknownView {
            unknown: self.unknown@,
        }
    }
}

impl Writeable for Unknown {
    open spec fn wf_v(w: UnknownView) -> bool {
        <WideString as Writeable>::wf_v(w.unknown)
    }

    open spec fn enc_v(w: UnknownView) -> Seq<u8> {
        <WideString as Writeable>::enc_v(w.unknown)
    }

    fn write(&self, buffer: &mut Vec<u8>) {
        self.unknown.write(buffer);
        assert(buffer@ =~= old(buffer)@ + Self::enc_v(self@));
    }
}

impl Readable for Unknown {
    open spec fn dec_v(s: Seq<u8>) -> Option<(UnknownView, int)> {
        match <WideString as Readable>::dec_v(s) {
            None => None,
            Some((unknown, n1)) => Some((UnknownView { unknown }, n1)),
        }
    }

    open spec fn reads_to_end() -> bool {
        false
    }

    proof fn lemma_dec_sound(s: Seq<u8>) {
        <WideString as Readable>::lemma_dec_sound(s);
        if let Some((unknown, n1)) = <WideString as Readable>::dec_v(s) {
        }
    }

    proof fn lemma_dec_complete(w: UnknownView, rest: Seq<u8>) {
        let e1 = <WideString as Writeable>::enc_v(w.unknown);
        let r1 = rest;
        let s = Self::enc_v(w) + rest;
        assert(s =~= e1 + r1);
        <WideString as Readable>::lemma_dec_complete(w.unknown, r1);
        lemma_skip_concat(e1, r1);
    }

    fn read(buf: &[u8], pos: &mut usize) -> (r: Result<Unknown, Error>) {
        let ghost s = buf@.skip(*pos as int);
        let ghost p0 = *pos;
        let f_unknown = match <WideString as Readable>::read(buf, pos) {
            Ok(v) => v,
            Err(e) => {
                return Err(e);
            },
        };
        let v = Unknown { unknown: f_unknown };
        assert(v@ =~= UnknownView { unknown: f_unknown@ });
        Ok(v)
    }
}

/// Handshake refusal: the password did not match.
#[derive(Debug, Clone, Copy, PartialEq, Eq, Structural)]
pub struct WrongPassword {
}

impl View for WrongPassword {
    type V = WrongPassword;

    open spec fn view(&self) -> WrongPassword {
        *self
    }
}

impl Writeable for WrongPassword {
    open spec fn wf_v(w: WrongPassword) -> bool {
        true
    }

    open spec fn enc_v(w: WrongPassword) -> Seq<u8> {
        Seq::empty()
    }

    fn write(&self, buffer: &mut Vec<u8>) {
        assert(buffer@ =~= old(buffer)@ + Self::enc_v(self@));
    }
}

impl Readable for WrongPassword {
    open spec fn dec_v(s: Seq<u8>) -> Option<(WrongPassword, int)> {
        Some((WrongPassword {  }, 0int))
    }

    open spec fn reads_to_end() -> bool {
        false
    }

    proof fn lemma_dec_sound(s: Seq<u8>) {
    }

    proof fn lemma_dec_complete(w: WrongPassword, rest: Seq<u8>) {
        assert(Self::enc_v(w) + rest =~= rest);
        assert(w == WrongPassword {  });
    }

    fn read(buf: &[u8], pos: &mut usize) -> (r: Result<WrongPassword, Error>) {
        Ok(WrongPassword {  })
    }
}

/// Handshake refusal: the server speaks only the given protocol
/// version.
#[derive(Debug, Clone, Copy, PartialEq, Eq, Structural)]
pub struct WrongProtocol {
    pub protocol_version: u16,
}

impl View for WrongProtocol {
    type V = WrongProtocol;

    open spec fn view(&self) -> WrongProtocol {
        *self
    }
}

impl Writeable for WrongProtocol {
    open spec fn wf_v(w: WrongProtocol) -> bool {
        true
    }

    open spec fn enc_v(w: WrongProtocol) -> Seq<u8> {
        <u16 as Writeable>::enc_v(w.protocol_version)
    }

    fn write(&self, buffer: &mut Vec<u8>) {
        self.protocol_version.write(buffer);
        assert(buffer@ =~= old(buffer)@ + Self::enc_v(self@));
    }
}

impl Readable for WrongProtocol {
    open spec fn dec_v(s: Seq<u8>) -> Option<(WrongProtocol, int)> {
        match <u16 as Readable>::dec_v(s) {
            None => None,
            Some((protocol_version, n1)) => Some((WrongProtocol { protocol_version }, n1)),
        }
    }

    open spec fn reads_to_end() -> bool {
        false
    }

    proof fn lemma_dec_sound(s: Seq<u8>) {
        <u16 as Readable>::lemma_dec_sound(s);
        if let Some((protocol_version, n1)) = <u16 as Readable>::dec_v(s) {
        }
    }

    proof fn lemma_dec_complete(w: WrongProtocol, rest: Seq<u8>) {
        let e1 = <u16 as Writeable>::enc_v(w.protocol_version);
        let r1 = rest;
        let s = Self::enc_v(w) + rest;
        assert(s =~= e1 + r1);
        <u16 as Readable>::lemma_dec_complete(w.protocol_version, r1);
        lemma_skip_concat(e1, r1);
    }

    fn read(buf: &[u8], pos: &mut usize) -> (r: Result<WrongProtocol, Error>) {
        let ghost s = buf@.skip(*pos as int);
        let ghost p0 = *pos;
        let f_protocol_version = match <u16 as Readable>::read(buf, pos) {
            Ok(v) => v,
            Err(e) => {
                return Err(e);
            },
        };
        let v = WrongProtocol { protocol_version: f_protocol_version };
        Ok(v)
    }
}

/// Handshake refusal: the client is banned.
#[derive(Debug, Clone, Copy, PartialEq, Eq, Structural)]
pub struct Banned {
}

impl View for Banned {
    type V = Banned;

    open spec fn view(&self) -> Banned {
        *self
    }
}

impl Writeable for Banned {
    open spec fn wf_v(w: Banned) -> bool {
        true
    }

    open spec fn enc_v(w: Banned) -> Seq<u8> {
        Seq::empty()
    }

    fn write(&self, buffer: &mut Vec<u8>) {
        assert(buffer@ =~= old(buffer)@ + Self::enc_v(self@));
    }
}

impl Readable for Banned {
    open spec fn dec_v(s: Seq<u8>) -> Option<(Banned, int)> {
        Some((Banned {  }, 0int))
    }

    open spec fn reads_to_end() -> bool {
        false
    }

    proof fn lemma_dec_sound(s: Seq<u8>) {
    }

    proof fn lemma_dec_complete(w: Banned, rest: Seq<u8>) {
        assert(Self::enc_v(w) + rest =~= rest);
        assert(w == Banned {  });
    }

    fn read(buf: &[u8], pos: &mut usize) -> (r: Result<Banned, Error>) {
        Ok(Banned {  })
    }
}

/// A peer left; its car slot is free again.
#[derive(Debug, Clone, Copy, PartialEq, Eq, Structural)]
pub struct ClientDisconnect {
    pub car_id: u8,
}

impl View for ClientDisconnect {
    type V = ClientDisconnect;

    open spec fn view(&self) -> ClientDisconnect {
        *self
    }
}

impl Writeable for ClientDisconnect {
    open spec fn wf_v(w: ClientDisconnect) -> bool {
        true
    }

    open spec fn enc_v(w: ClientDisconnect) -> Seq<u8> {
        <u8 as Writeable>::enc_v(w.car_id)
    }

    fn write(&self, buffer: &mut Vec<u8>) {
        self.car_id.write(buffer);
        assert(buffer@ =~= old(buffer)@ + Self::enc_v(self@));
    }
}

impl Readable for ClientDisconnect {
    open spec fn dec_v(s: Seq<u8>) -> Option<(ClientDisconnect, int)> {
        match <u8 as Readable>::dec_v(s) {
            None => None,
            Some((car_id, n1)) => Some((ClientDisconnect { car_id }, n1)),
        }
    }

    open spec fn reads_to_end() -> bool {
        false
    }

    proof fn lemma_dec_sound(s: Seq<u8>) {
        <u8 as Readable>::lemma_dec_sound(s);
        if let Some((car_id, n1)) = <u8 as Readable>::dec_v(s) {
        }
    }

    proof fn lemma_dec_complete(w: ClientDisconnect, rest: Seq<u8>) {
        let e1 = <u8 as Writeable>::enc_v(w.car_id);
        let r1 = rest;
        let s = Self::enc_v(w) + rest;
        assert(s =~= e1 + r1);
        <u8 as Readable>::lemma_dec_complete(w.car_id, r1);
        lemma_skip_concat(e1, r1);
    }

    fn read(buf: &[u8], pos: &mut usize) -> (r: Result<ClientDisconnect, Error>) {
        let ghost s = buf@.skip(*pos as int);
        let ghost p0 = *pos;
        let f_car_id = match <u8 as Readable>::read(buf, pos) {
            Ok(v) => v,
            Err(e) => {
                return Err(e);
            },
        };
        let v = ClientDisconnect { car_id: f_car_id };
        Ok(v)
    }
}

/// The race started.
#[derive(Debug, Clone, Copy, PartialEq, Eq, Structural)]
pub struct RaceStart {
    pub unknown: i16,
    pub unknown2: u16,
    pub unknown3: u32,
    pub ping: u16,
}

impl View for RaceStart {
    type V = RaceStart;

    open spec fn view(&self) -> RaceStart {
        *self
    }
}

impl Writeable for RaceStart {
    open spec fn wf_v(w: RaceStart) -> bool {
        true
    }

    open spec fn enc_v(w: RaceStart) -> Seq<u8> {
        <i16 as Writeable>::enc_v(w.unknown) + <u16 as Writeable>::enc_v(w.unknown2) + <u32 as Writeable>::enc_v(w.unknown3) + <u16 as Writeable>::enc_v(w.ping)
    }

    fn write(&self, buffer: &mut Vec<u8>) {
        self.unknown.write(buffer);
        self.unknown2.write(buffer);
        self.unknown3.write(buffer);
        self.ping.write(buffer);
        assert(buffer@ =~= old(buffer)@ + Self::enc_v(self@));
    }
}

impl Readable for RaceStart {
    open spec fn dec_v(s: Seq<u8>) -> Option<(RaceStart, int)> {
        match <i16 as Readable>::dec_v(s) {
            None => None,
            Some((unknown, n1)) => 
            match <u16 as Readable>::dec_v(s.skip(n1)) {
                None => None,
                Some((unknown2, n2)) => 
                match <u32 as Readable>::dec_v(s.skip(n1 + n2)) {
                    None => None,
                    Some((unknown3, n3)) => 
                    match <u16 as Readable>::dec_v(s.skip(n1 + n2 + n3)) {
                        None => None,
                        Some((ping, n4)) => Some((RaceStart { unknown, unknown2, unknown3, ping }, n1 + n2 + n3 + n4)),
                    },
                },
            },
        }
    }

    open spec fn reads_to_end() -> bool {
        false
    }

    proof fn lemma_dec_sound(s: Seq<u8>) {
        <i16 as Readable>::lemma_dec_sound(s);
        if let Some((unknown, n1)) = <i16 as Readable>::dec_v(s) {
            <u16 as Readable>::lemma_dec_sound(s.skip(n1));
            if let Some((unknown2, n2)) = <u16 as Readable>::dec_v(s.skip(n1)) {
                <u32 as Readable>::lemma_dec_sound(s.skip(n1 + n2));
                if let Some((unknown3, n3)) = <u32 as Readable>::dec_v(s.skip(n1 + n2)) {
                    <u16 as Readable>::lemma_dec_sound(s.skip(n1 + n2 + n3));
                    if let Some((ping, n4)) = <u16 as Readable>::dec_v(s.skip(n1 + n2 + n3)) {
                        assert(s.take(n1) + s.skip(n1).take(n2) =~= s.take(n1 + n2));
                        assert(s.take(n1 + n2) + s.skip(n1 + n2).take(n3) =~= s.take(n1 + n2 + n3));
                        assert(s.take(n1 + n2 + n3) + s.skip(n1 + n2 + n3).take(n4) =~= s.take(n1 + n2 + n3 + n4));
                    }
                }
            }
        }
    }

    proof fn lemma_dec_complete(w: RaceStart, rest: Seq<u8>) {
        let e1 = <i16 as Writeable>::enc_v(w.unknown);
        let e2 = <u16 as Writeable>::enc_v(w.unknown2);
        let e3 = <u32 as Writeable>::enc_v(w.unknown3);
        let e4 = <u16 as Writeable>::enc_v(w.ping);
        let r4 = rest;
        let r3 = e4 + r4;
        let r2 = e3 + r3;
        let r1 = e2 + r2;
        let s = Self::enc_v(w) + rest;
        assert(s =~= e1 + r1);
        <i16 as Readable>::lemma_dec_complete(w.unknown, r1);
        lemma_skip_concat(e1, r1);
        <u16 as Readable>::lemma_dec_complete(w.unknown2, r2);
        lemma_skip_concat(e2, r2);
        lemma_skip_skip(s, (e1.len()) as int, e2.len() as int);
        <u32 as Readable>::lemma_dec_complete(w.unknown3, r3);
        lemma_skip_concat(e3, r3);
        lemma_skip_skip(s, (e1.len() + e2.len()) as int, e3.len() as int);
        <u16 as Readable>::lemma_dec_complete(w.ping, r4);
        lemma_skip_concat(e4, r4);
        lemma_skip_skip(s, (e1.len() + e2.len() + e3.len()) as int, e4.len() as int);
    }

    fn read(buf: &[u8], pos: &mut usize) -> (r: Result<RaceStart, Error>) {
        let ghost s = buf@.skip(*pos as int);
        let ghost p0 = *pos;
        let f_unknown = match <i16 as Readable>::read(buf, pos) {
            Ok(v) => v,
            Err(e) => {
                return Err(e);
            },
        };
        assert(buf@.skip(*pos as int) =~= s.skip(*pos - p0));
        let f_unknown2 = match <u16 as Readable>::read(buf, pos) {
            Ok(v) => v,
            Err(e) => {
                return Err(e);
            },
        };
        assert(buf@.skip(*pos as int) =~= s.skip(*pos - p0));
        let f_unknown3 = match <u32 as Readable>::read(buf, pos) {
            Ok(v) => v,
            Err(e) => {
                return Err(e);
            },
        };
        assert(buf@.skip(*pos as int) =~= s.skip(*pos - p0));
        let f_ping = match <u16 as Readable>::read(buf, pos) {
            Ok(v) => v,
            Err(e) => {
                return Err(e);
            },
        };
        let v = RaceStart { unknown: f_unknown, unknown2: f_unknown2, unknown3: f_unknown3, ping: f_ping };
        Ok(v)
    }
}

/// Five damage-zone values of the given car, rebroadcast to peers.
#[derive(Debug, Clone, Copy, PartialEq, Eq, Structural)]
pub struct DamageUpdate {
    pub car_id: u8,
    pub damage: F32,
    pub damage1: F32,
    pub damage2: F32,
    pub damage3: F32,
    pub damage4: F32,
}

impl View for DamageUpdate {
    type V = DamageUpdate;

    open spec fn view(&self) -> DamageUpdate {
        *self
    }
}

impl Writeable for DamageUpdate {
    open spec fn wf_v(w: DamageUpdate) -> bool {
        true
    }

    open spec fn enc_v(w: DamageUpdate) -> Seq<u8> {
        <u8 as Writeable>::enc_v(w.car_id) + <F32 as Writeable>::enc_v(w.damage) + <F32 as Writeable>::enc_v(w.damage1) + <F32 as Writeable>::enc_v(w.damage2) + <F32 as Writeable>::enc_v(w.damage3) + <F32 as Writeable>::enc_v(w.damage4)
    }

    fn write(&self, buffer: &mut Vec<u8>) {
        self.car_id.write(buffer);
        self.damage.write(buffer);
        self.damage1.write(buffer);
        self.damage2.write(buffer);
        self.damage3.write(buffer);
        self.damage4.write(buffer);
        assert(buffer@ =~= old(buffer)@ + Self::enc_v(self@));
    }
}

impl Readable for DamageUpdate {
    open spec fn dec_v(s: Seq<u8>) -> Option<(DamageUpdate, int)> {
        match <u8 as Readable>::dec_v(s) {
            None => None,
            Some((car_id, n1)) => 
            match <F32 as Readable>::dec_v(s.skip(n1)) {
                None => None,
                Some((damage, n2)) => 
                match <F32 as Readable>::dec_v(s.skip(n1 + n2)) {
                    None => None,
                    Some((damage1, n3)) => 
                    match <F32 as Readable>::dec_v(s.skip(n1 + n2 + n3)) {
                        None => None,
                        Some((damage2, n4)) => 
                        match <F32 as Readable>::dec_v(s.skip(n1 + n2 + n3 + n4)) {
                            None => None,
                            Some((damage3, n5)) => 
                            match <F32 as Readable>::dec_v(s.skip(n1 + n2 + n3 + n4 + n5)) {
                                None => None,
                                Some((damage4, n6)) => Some((DamageUpdate { car_id, damage, damage1, damage2, damage3, damage4 }, n1 + n2 + n3 + n4 + n5 + n6)),
                            },
                        },
                    },
                },
            },
        }
    }

    open spec fn reads_to_end() -> bool {
        false
    }

    proof fn lemma_dec_sound(s: Seq<u8>) {
        <u8 as Readable>::lemma_dec_sound(s);
        if let Some((car_id, n1)) = <u8 as Readable>::dec_v(s) {
            <F32 as Readable>::lemma_dec_sound(s.skip(n1));
            if let Some((damage, n2)) = <F32 as Readable>::dec_v(s.skip(n1)) {
                <F32 as Readable>::lemma_dec_sound(s.skip(n1 + n2));
                if let Some((damage1, n3)) = <F32 as Readable>::dec_v(s.skip(n1 + n2)) {
                    <F32 as Readable>::lemma_dec_sound(s.skip(n1 + n2 + n3));
                    if let Some((damage2, n4)) = <F32 as Readable>::dec_v(s.skip(n1 + n2 + n3)) {
                        <F32 as Readable>::lemma_dec_sound(s.skip(n1 + n2 + n3 + n4));
                        if let Some((damage3, n5)) = <F32 as Readable>::dec_v(s.skip(n1 + n2 + n3 + n4)) {
                            <F32 as Readable>::lemma_dec_sound(s.skip(n1 + n2 + n3 + n4 + n5));
                            if let Some((damage4, n6)) = <F32 as Readable>::dec_v(s.skip(n1 + n2 + n3 + n4 + n5)) {
                                assert(s.take(n1) + s.skip(n1).take(n2) =~= s.take(n1 + n2));
                                assert(s.take(n1 + n2) + s.skip(n1 + n2).take(n3) =~= s.take(n1 + n2 + n3));
                                assert(s.take(n1 + n2 + n3) + s.skip(n1 + n2 + n3).take(n4) =~= s.take(n1 + n2 + n3 + n4));
                                assert(s.take(n1 + n2 + n3 + n4) + s.skip(n1 + n2 + n3 + n4).take(n5) =~= s.take(n1 + n2 + n3 + n4 + n5));
                                assert(s.take(n1 + n2 + n3 + n4 + n5) + s.skip(n1 + n2 + n3 + n4 + n5).take(n6) =~= s.take(n1 + n2 + n3 + n4 + n5 + n6));
                            }
                        }
                    }
                }
            }
        }
    }

    proof fn lemma_dec_complete(w: DamageUpdate, rest: Seq<u8>) {
        let e1 = <u8 as Writeable>::enc_v(w.car_id);
        let e2 = <F32 as Writeable>::enc_v(w.damage);
        let e3 = <F32 as Writeable>::enc_v(w.damage1);
        let e4 = <F32 as Writeable>::enc_v(w.damage2);
        let e5 = <F32 as Writeable>::enc_v(w.damage3);
        let e6 = <F32 as Writeable>::enc_v(w.damage4);
        let r6 = rest;
        let r5 = e6 + r6;
        let r4 = e5 + r5;
        let r3 = e4 + r4;
        let r2 = e3 + r3;
        let r1 = e2 + r2;
        let s = Self::enc_v(w) + rest;
        assert(s =~= e1 + r1);
        <u8 as Readable>::lemma_dec_complete(w.car_id, r1);
        lemma_skip_concat(e1, r1);
        <F32 as Readable>::lemma_dec_complete(w.damage, r2);
        lemma_skip_concat(e2, r2);
        lemma_skip_skip(s, (e1.len()) as int, e2.len() as int);
        <F32 as Readable>::lemma_dec_complete(w.damage1, r3);
        lemma_skip_concat(e3, r3);
        lemma_skip_skip(s, (e1.len() + e2.len()) as int, e3.len() as int);
        <F32 as Readable>::lemma_dec_complete(w.damage2, r4);
        lemma_skip_concat(e4, r4);
        lemma_skip_skip(s, (e1.len() + e2.len() + e3.len()) as int, e4.len() as int);
        <F32 as Readable>::lemma_dec_complete(w.damage3, r5);
        lemma_skip_concat(e5, r5);
        lemma_skip_skip(s, (e1.len() + e2.len() + e3.len() + e4.len()) as int, e5.len() as int);
        <F32 as Readable>::lemma_dec_complete(w.damage4, r6);
        lemma_skip_concat(e6, r6);
        lemma_skip_skip(s, (e1.len() + e2.len() + e3.len() + e4.len() + e5.len()) as int, e6.len() as int);
    }

    fn read(buf: &[u8], pos: &mut usize) -> (r: Result<DamageUpdate, Error>) {
        let ghost s = buf@.skip(*pos as int);
        let ghost p0 = *pos;
        let f_car_id = match <u8 as Readable>::read(buf, pos) {
            Ok(v) => v,
            Err(e) => {
                return Err(e);
            },
        };
        assert(buf@.skip(*pos as int) =~= s.skip(*pos - p0));
        let f_damage = match <F32 as Readable>::read(buf, pos) {
            Ok(v) => v,
            Err(e) => {
                return Err(e);
            },
        };
        assert(buf@.skip(*pos as int) =~= s.skip(*pos - p0));
        let f_damage1 = match <F32 as Readable>::read(buf, pos) {
            Ok(v) => v,
            Err(e) => {
                return Err(e);
            },
        };
        assert(buf@.skip(*pos as int) =~= s.skip(*pos - p0));
        let f_damage2 = match <F32 as Readable>::read(buf, pos) {
            Ok(v) => v,
            Err(e) => {
                return Err(e);
            },
        };
        assert(buf@.skip(*pos as int) =~= s.skip(*pos - p0));
        let f_damage3 = match <F32 as Readable>::read(buf, pos) {
            Ok(v) => v,
            Err(e) => {
                return Err(e);
            },
        };
        assert(buf@.skip(*pos as int) =~= s.skip(*pos - p0));
        let f_damage4 = match <F32 as Readable>::read(buf, pos) {
            Ok(v) => v,
            Err(e) => {
                return Err(e);
            },
        };
        let v = DamageUpdate { car_id: f_car_id, damage: f_damage, damage1: f_damage1, damage2: f_damage2, damage3: f_damage3, damage4: f_damage4 };
        Ok(v)
    }
}

/// The track's drag-reduction zones.
#[derive(Debug, Clone, PartialEq)]
pub struct DRSZones {
    pub zones: Vec<DRSZone>,
}

/// The mathematical view of [`DRSZones`].
#[verifier::ext_equal]
pub struct DRSZonesView {
    pub zones: Seq<DRSZone>,
}

impl View for DRSZones {
    type V = DRSZonesView;

    open spec fn view(&self) -> DRSZonesView {
        DRSZonesView {
            zones: views_of(self.zones@),
        }
    }
}

impl Writeable for DRSZones {
    open spec fn wf_v(w: DRSZonesView) -> bool {
        wf_u8_vec::<DRSZone>(w.zones)
    }

    open spec fn enc_v(w: DRSZonesView) -> Seq<u8> {
        enc_u8_vec::<DRSZone>(w.zones)
    }

    fn write(&self, buffer: &mut Vec<u8>) {
        write_u8_vec::<DRSZone>(&self.zones, buffer);
        assert(buffer@ =~= old(buffer)@ + Self::enc_v(self@));
    }
}

impl Readable for DRSZones {
    open spec fn dec_v(s: Seq<u8>) -> Option<(DRSZonesView, int)> {
        match dec_u8_vec::<DRSZone>(s) {
            None => None,
            Some((zones, n1)) => Some((DRSZonesView { zones }, n1)),
        }
    }

    open spec fn reads_to_end() -> bool {
        false
    }

    proof fn lemma_dec_sound(s: Seq<u8>) {
        lemma_dec_u8_vec_sound::<DRSZone>(s);
        if let Some((zones, n1)) = dec_u8_vec::<DRSZone>(s) {
        }
    }

    proof fn lemma_dec_complete(w: DRSZonesView, rest: Seq<u8>) {
        let e1 = enc_u8_vec::<DRSZone>(w.zones);
        let r1 = rest;
        let s = Self::enc_v(w) + rest;
        assert(s =~= e1 + r1);
        assert(!<DRSZone as Readable>::reads_to_end());
        lemma_dec_u8_vec_complete::<DRSZone>(w.zones, r1);
        lemma_skip_concat(e1, r1);
    }

    fn read(buf: &[u8], pos: &mut usize) -> (r: Result<DRSZones, Error>) {
        let ghost s = buf@.skip(*pos as int);
        let ghost p0 = *pos;
        let f_zones = match read_u8_vec::<DRSZone>(buf, pos) {
            Ok(v) => v,
            Err(e) => {
                return Err(e);
            },
        };
        let v = DRSZones { zones: f_zones };
        assert(v@ =~= DRSZonesView { zones: views_of(f_zones@) });
        Ok(v)
    }
}

/// A sector split of the given car.
#[derive(Debug, Clone, Copy, PartialEq, Eq, Structural)]
pub struct SectorSplit {
    pub car_id: u8,
    pub unknown2: u8,
    pub unknown3: u32,
    pub unknown4: u8,
}

impl View for SectorSplit {
    type V = SectorSplit;

    open spec fn view(&self) -> SectorSplit {
        *self
    }
}

impl Writeable for SectorSplit {
    open spec fn wf_v(w: SectorSplit) -> bool {
        true
    }

    open spec fn enc_v(w: SectorSplit) -> Seq<u8> {
        <u8 as Writeable>::enc_v(w.car_id) + <u8 as Writeable>::enc_v(w.unknown2) + <u32 as Writeable>::enc_v(w.unknown3) + <u8 as Writeable>::enc_v(w.unknown4)
    }

    fn write(&self, buffer: &mut Vec<u8>) {
        self.car_id.write(buffer);
        self.unknown2.write(buffer);
        self.unknown3.write(buffer);
        self.unknown4.write(buffer);
        assert(buffer@ =~= old(buffer)@ + Self::enc_v(self@));
    }
}

impl Readable for SectorSplit {
    open spec fn dec_v(s: Seq<u8>) -> Option<(SectorSplit, int)> {
        match <u8 as Readable>::dec_v(s) {
            None => None,
            Some((car_id, n1)) => 
            match <u8 as Readable>::dec_v(s.skip(n1)) {
                None => None,
                Some((unknown2, n2)) => 
                match <u32 as Readable>::dec_v(s.skip(n1 + n2)) {
                    None => None,
                    Some((unknown3, n3)) => 
                    match <u8 as Readable>::dec_v(s.skip(n1 + n2 + n3)) {
                        None => None,
                        Some((unknown4, n4)) => Some((SectorSplit { car_id, unknown2, unknown3, unknown4 }, n1 + n2 + n3 + n4)),
                    },
                },
            },
        }
    }

    open spec fn reads_to_end() -> bool {
        false
    }

    proof fn lemma_dec_sound(s: Seq<u8>) {
        <u8 as Readable>::lemma_dec_sound(s);
        if let Some((car_id, n1)) = <u8 as Readable>::dec_v(s) {
            <u8 as Readable>::lemma_dec_sound(s.skip(n1));
            if let Some((unknown2, n2)) = <u8 as Readable>::dec_v(s.skip(n1)) {
                <u32 as Readable>::lemma_dec_sound(s.skip(n1 + n2));
                if let Some((unknown3, n3)) = <u32 as Readable>::dec_v(s.skip(n1 + n2)) {
                    <u8 as Readable>::lemma_dec_sound(s.skip(n1 + n2 + n3));
                    if let Some((unknown4, n4)) = <u8 as Readable>::dec_v(s.skip(n1 + n2 + n3)) {
                        assert(s.take(n1) + s.skip(n1).take(n2) =~= s.take(n1 + n2));
                        assert(s.take(n1 + n2) + s.skip(n1 + n2).take(n3) =~= s.take(n1 + n2 + n3));
                        assert(s.take(n1 + n2 + n3) + s.skip(n1 + n2 + n3).take(n4) =~= s.take(n1 + n2 + n3 + n4));
                    }
                }
            }
        }
    }

    proof fn lemma_dec_complete(w: SectorSplit, rest: Seq<u8>) {
        let e1 = <u8 as Writeable>::enc_v(w.car_id);
        let e2 = <u8 as Writeable>::enc_v(w.unknown2);
        let e3 = <u32 as Writeable>::enc_v(w.unknown3);
        let e4 = <u8 as Writeable>::enc_v(w.unknown4);
        let r4 = rest;
        let r3 = e4 + r4;
        let r2 = e3 + r3;
        let r1 = e2 + r2;
        let s = Self::enc_v(w) + rest;
        assert(s =~= e1 + r1);
        <u8 as Readable>::lemma_dec_complete(w.car_id, r1);
        lemma_skip_concat(e1, r1);
        <u8 as Readable>::lemma_dec_complete(w.unknown2, r2);
        lemma_skip_concat(e2, r2);
        lemma_skip_skip(s, (e1.len()) as int, e2.len() as int);
        <u32 as Readable>::lemma_dec_complete(w.unknown3, r3);
        lemma_skip_concat(e3, r3);
        lemma_skip_skip(s, (e1.len() + e2.len()) as int, e3.len() as int);
        <u8 as Readable>::lemma_dec_complete(w.unknown4, r4);
        lemma_skip_concat(e4, r4);
        lemma_skip_skip(s, (e1.len() + e2.len() + e3.len()) as int, e4.len() as int);
    }

    fn read(buf: &[u8], pos: &mut usize) -> (r: Result<SectorSplit, Error>) {
        let ghost s = buf@.skip(*pos as int);
        let ghost p0 = *pos;
        let f_car_id = match <u8 as Readable>::read(buf, pos) {
            Ok(v) => v,
            Err(e) => {
                return Err(e);
            },
        };
        assert(buf@.skip(*pos as int) =~= s.skip(*pos - p0));
        let f_unknown2 = match <u8 as Readable>::read(buf, pos) {
            Ok(v) => v,
            Err(e) => {
                return Err(e);
            },
        };
        assert(buf@.skip(*pos as int) =~= s.skip(*pos - p0));
        let f_unknown3 = match <u32 as Readable>::read(buf, pos) {
            Ok(v) => v,
            Err(e) => {
                return Err(e);
            },
        };
        assert(buf@.skip(*pos as int) =~= s.skip(*pos - p0));
        let f_unknown4 = match <u8 as Readable>::read(buf, pos) {
            Ok(v) => v,
            Err(e) => {
                return Err(e);
            },
        };
        let v = SectorSplit { car_id: f_car_id, unknown2: f_unknown2, unknown3: f_unknown3, unknown4: f_unknown4 };
        Ok(v)
    }
}

/// The car table from the requested slot index onward.
#[derive(Debug, Clone, PartialEq)]
pub struct CarList {
    pub from_session_id: u8,
    pub cars: Vec<Car>,
}

/// The mathematical view of [`CarList`].
#[verifier::ext_equal]
pub struct CarListView {
    pub from_session_id: u8,
    pub cars: Seq<CarView>,
}

impl View for CarList {
    type V = CarListView;

    open spec fn view(&self) -> CarListView {
        CarListView {
            from_session_id: self.from_session_id,
            cars: views_of(self.cars@),
        }
    }
}

impl Writeable for CarList {
    open spec fn wf_v(w: CarListView) -> bool {
        wf_u8_vec::<Car>(w.cars)
    }

    open spec fn enc_v(w: CarListView) -> Seq<u8> {
        <u8 as Writeable>::enc_v(w.from_session_id) + enc_u8_vec::<Car>(w.cars)
    }

    fn write(&self, buffer: &mut Vec<u8>) {
        self.from_session_id.write(buffer);
        write_u8_vec::<Car>(&self.cars, buffer);
        assert(buffer@ =~= old(buffer)@ + Self::enc_v(self@));
    }
}

impl Readable for CarList {
    open spec fn dec_v(s: Seq<u8>) -> Option<(CarListView, int)> {
        match <u8 as Readable>::dec_v(s) {
            None => None,
            Some((from_session_id, n1)) => 
            match dec_u8_vec::<Car>(s.skip(n1)) {
                None => None,
                Some((cars, n2)) => Some((CarListView { from_session_id, cars }, n1 + n2)),
            },
        }
    }

    open spec fn reads_to_end() -> bool {
        false
    }

    proof fn lemma_dec_sound(s: Seq<u8>) {
        <u8 as Readable>::lemma_dec_sound(s);
        if let Some((from_session_id, n1)) = <u8 as Readable>::dec_v(s) {
            lemma_dec_u8_vec_sound::<Car>(s.skip(n1));
            if let Some((cars, n2)) = dec_u8_vec::<Car>(s.skip(n1)) {
                assert(s.take(n1) + s.skip(n1).take(n2) =~= s.take(n1 + n2));
            }
        }
    }

    proof fn lemma_dec_complete(w: CarListView, rest: Seq<u8>) {
        let e1 = <u8 as Writeable>::enc_v(w.from_session_id);
        let e2 = enc_u8_vec::<Car>(w.cars);
        let r2 = rest;
        let r1 = e2 + r2;
        let s = Self::enc_v(w) + rest;
        assert(s =~= e1 + r1);
        <u8 as Readable>::lemma_dec_complete(w.from_session_id, r1);
        lemma_skip_concat(e1, r1);
        assert(!<Car as Readable>::reads_to_end());
        lemma_dec_u8_vec_complete::<Car>(w.cars, r2);
        lemma_skip_concat(e2, r2);
        lemma_skip_skip(s, (e1.len()) as int, e2.len() as int);
    }

    fn read(buf: &[u8], pos: &mut usize) -> (r: Result<CarList, Error>) {
        let ghost s = buf@.skip(*pos as int);
        let ghost p0 = *pos;
        let f_from_session_id = match <u8 as Readable>::read(buf, pos) {
            Ok(v) => v,
            Err(e) => {
                return Err(e);
            },
        };
        assert(buf@.skip(*pos as int) =~= s.skip(*pos - p0));
        let f_cars = match read_u8_vec::<Car>(buf, pos) {
            Ok(v) => v,
            Err(e) => {
                return Err(e);
            },
        };
        let v = CarList { from_session_id: f_from_session_id, cars: f_cars };
        assert(v@ =~= CarListView { from_session_id: f_from_session_id, cars: views_of(f_cars@) });
        Ok(v)
    }
}

/// The driver names of every car.
#[derive(Debug, Clone, PartialEq)]
pub struct Names {
    pub driver_names: Vec<Name>,
}

/// The mathematical view of [`Names`].
#[verifier::ext_equal]
pub struct NamesView {
    pub driver_names: Seq<NameView>,
}

impl View for Names {
    type V = NamesView;

    open spec fn view(&self) -> NamesView {
        NamesView {
            driver_names: views_of(self.driver_names@),
        }
    }
}

impl Writeable for Names {
    open spec fn wf_v(w: NamesView) -> bool {
        wf_u8_vec::<Name>(w.driver_names)
    }

    open spec fn enc_v(w: NamesView) -> Seq<u8> {
        enc_u8_vec::<Name>(w.driver_names)
    }

    fn write(&self, buffer: &mut Vec<u8>) {
        write_u8_vec::<Name>(&self.driver_names, buffer);
        assert(buffer@ =~= old(buffer)@ + Self::enc_v(self@));
    }
}

impl Readable for Names {
    open spec fn dec_v(s: Seq<u8>) -> Option<(NamesView, int)> {
        match dec_u8_vec::<Name>(s) {
            None => None,
            Some((driver_names, n1)) => Some((NamesView { driver_names }, n1)),
        }
    }

    open spec fn reads_to_end() -> bool {
        false
    }

    proof fn lemma_dec_sound(s: Seq<u8>) {
        lemma_dec_u8_vec_sound::<Name>(s);
        if let Some((driver_names, n1)) = dec_u8_vec::<Name>(s) {
        }
    }

    proof fn lemma_dec_complete(w: NamesView, rest: Seq<u8>) {
        let e1 = enc_u8_vec::<Name>(w.driver_names);
        let r1 = rest;
        let s = Self::enc_v(w) + rest;
        assert(s =~= e1 + r1);
        assert(!<Name as Readable>::reads_to_end());
        lemma_dec_u8_vec_complete::<Name>(w.driver_names, r1);
        lemma_skip_concat(e1, r1);
    }

    fn read(buf: &[u8], pos: &mut usize) -> (r: Result<Names, Error>) {
        let ghost s = buf@.skip(*pos as int);
        let ghost p0 = *pos;
        let f_driver_names = match read_u8_vec::<Name>(buf, pos) {
            Ok(v) => v,
            Err(e) => {
                return Err(e);
            },
        };
        let v = Names { driver_names: f_driver_names };
        assert(v@ =~= NamesView { driver_names: views_of(f_driver_names@) });
        Ok(v)
    }
}

/// The push-to-pass counter of the given car.
#[derive(Debug, Clone, Copy, PartialEq, Eq, Structural)]
pub struct P2PCount {
    pub car_id: u8,
    pub p2p_count: i16,
    pub active: bool,
}

impl View for P2PCount {
    type V = P2PCount;

    open spec fn view(&self) -> P2PCount {
        *self
    }
}

impl Writeable for P2PCount {
    open spec fn wf_v(w: P2PCount) -> bool {
        true
    }

    open spec fn enc_v(w: P2PCount) -> Seq<u8> {
        <u8 as Writeable>::enc_v(w.car_id) + <i16 as Writeable>::enc_v(w.p2p_count) + <bool as Writeable>::enc_v(w.active)
    }

    fn write(&self, buffer: &mut Vec<u8>) {
        self.car_id.write(buffer);
        self.p2p_count.write(buffer);
        self.active.write(buffer);
        assert(buffer@ =~= old(buffer)@ + Self::enc_v(self@));
    }
}

impl Readable for P2PCount {
    open spec fn dec_v(s: Seq<u8>) -> Option<(P2PCount, int)> {
        match <u8 as Readable>::dec_v(s) {
            None => None,
            Some((car_id, n1)) => 
            match <i16 as Readable>::dec_v(s.skip(n1)) {
                None => None,
                Some((p2p_count, n2)) => 
                match <bool as Readable>::dec_v(s.skip(n1 + n2)) {
                    None => None,
                    Some((active, n3)) => Some((P2PCount { car_id, p2p_count, active }, n1 + n2 + n3)),
                },
            },
        }
    }

    open spec fn reads_to_end() -> bool {
        false
    }

    proof fn lemma_dec_sound(s: Seq<u8>) {
        <u8 as Readable>::lemma_dec_sound(s);
        if let Some((car_id, n1)) = <u8 as Readable>::dec_v(s) {
            <i16 as Readable>::lemma_dec_sound(s.skip(n1));
            if let Some((p2p_count, n2)) = <i16 as Readable>::dec_v(s.skip(n1)) {
                <bool as Readable>::lemma_dec_sound(s.skip(n1 + n2));
                if let Some((active, n3)) = <bool as Readable>::dec_v(s.skip(n1 + n2)) {
                    assert(s.take(n1) + s.skip(n1).take(n2) =~= s.take(n1 + n2));
                    assert(s.take(n1 + n2) + s.skip(n1 + n2).take(n3) =~= s.take(n1 + n2 + n3));
                }
            }
        }
    }

    proof fn lemma_dec_complete(w: P2PCount, rest: Seq<u8>) {
        let e1 = <u8 as Writeable>::enc_v(w.car_id);
        let e2 = <i16 as Writeable>::enc_v(w.p2p_count);
        let e3 = <bool as Writeable>::enc_v(w.active);
        let r3 = rest;
        let r2 = e3 + r3;
        let r1 = e2 + r2;
        let s = Self::enc_v(w) + rest;
        assert(s =~= e1 + r1);
        <u8 as Readable>::lemma_dec_complete(w.car_id, r1);
        lemma_skip_concat(e1, r1);
        <i16 as Readable>::lemma_dec_complete(w.p2p_count, r2);
        lemma_skip_concat(e2, r2);
        lemma_skip_skip(s, (e1.len()) as int, e2.len() as int);
        <bool as Readable>::lemma_dec_complete(w.active, r3);
        lemma_skip_concat(e3, r3);
        lemma_skip_skip(s, (e1.len() + e2.len()) as int, e3.len() as int);
    }

    fn read(buf: &[u8], pos: &mut usize) -> (r: Result<P2PCount, Error>) {
        let ghost s = buf@.skip(*pos as int);
        let ghost p0 = *pos;
        let f_car_id = match <u8 as Readable>::read(buf, pos) {
            Ok(v) => v,
            Err(e) => {
                return Err(e);
            },
        };
        assert(buf@.skip(*pos as int) =~= s.skip(*pos - p0));
        let f_p2p_count = match <i16 as Readable>::read(buf, pos) {
            Ok(v) => v,
            Err(e) => {
                return Err(e);
            },
        };
        assert(buf@.skip(*pos as int) =~= s.skip(*pos - p0));
        let f_active = match <bool as Readable>::read(buf, pos) {
            Ok(v) => v,
            Err(e) => {
                return Err(e);
            },
        };
        let v = P2PCount { car_id: f_car_id, p2p_count: f_p2p_count, active: f_active };
        Ok(v)
    }
}

/// The server's welcome text, sent once after the first datagram
/// update.
#[derive(Debug, Clone, PartialEq)]
pub struct WelcomeMessage {
    pub unknown: u8,
    pub welcome_msg: BigWideString,
}

/// The mathematical view of [`WelcomeMessage`].
#[verifier::ext_equal]
pub struct WelcomeMessageView {
    pub unknown: u8,
    pub welcome_msg: Seq<u32>,
}

impl View for WelcomeMessage {
    type V = WelcomeMessageView;

    open spec fn view(&self) -> WelcomeMessageView {
        WelcomeMessageView {
            unknown: self.unknown,
            welcome_msg: self.welcome_msg@,
        }
    }
}

impl Writeable for WelcomeMessage {
    open spec fn wf_v(w: WelcomeMessageView) -> bool {
        <BigWideString as Writeable>::wf_v(w.welcome_msg)
    }

    open spec fn enc_v(w: WelcomeMessageView) -> Seq<u8> {
        <u8 as Writeable>::enc_v(w.unknown) + <BigWideString as Writeable>::enc_v(w.welcome_msg)
    }

    fn write(&self, buffer: &mut Vec<u8>) {
        self.unknown.write(buffer);
        self.welcome_msg.write(buffer);
        assert(buffer@ =~= old(buffer)@ + Self::enc_v(self@));
    }
}

impl Readable for WelcomeMessage {
    open spec fn dec_v(s: Seq<u8>) -> Option<(WelcomeMessageView, int)> {
        match <u8 as Readable>::dec_v(s) {
            None => None,
            Some((unknown, n1)) => 
            match <BigWideString as Readable>::dec_v(s.skip(n1)) {
                None => None,
                Some((welcome_msg, n2)) => Some((WelcomeMessageView { unknown, welcome_msg }, n1 + n2)),
            },
        }
    }

    open spec fn reads_to_end() -> bool {
        false
    }

    proof fn lemma_dec_sound(s: Seq<u8>) {
        <u8 as Readable>::lemma_dec_sound(s);
        if let Some((unknown, n1)) = <u8 as Readable>::dec_v(s) {
            <BigWideString as Readable>::lemma_dec_sound(s.skip(n1));
            if let Some((welcome_msg, n2)) = <BigWideString as Readable>::dec_v(s.skip(n1)) {
                assert(s.take(n1) + s.skip(n1).take(n2) =~= s.take(n1 + n2));
            }
        }
    }

    proof fn lemma_dec_complete(w: WelcomeMessageView, rest: Seq<u8>) {
        let e1 = <u8 as Writeable>::enc_v(w.unknown);
        let e2 = <BigWideString as Writeable>::enc_v(w.welcome_msg);
        let r2 = rest;
        let r1 = e2 + r2;
        let s = Self::enc_v(w) + rest;
        assert(s =~= e1 + r1);
        <u8 as Readable>::lemma_dec_complete(w.unknown, r1);
        lemma_skip_concat(e1, r1);
        <BigWideString as Readable>::lemma_dec_complete(w.welcome_msg, r2);
        lemma_skip_concat(e2, r2);
        lemma_skip_skip(s, (e1.len()) as int, e2.len() as int);
    }

    fn read(buf: &[u8], pos: &mut usize) -> (r: Result<WelcomeMessage, Error>) {
        let ghost s = buf@.skip(*pos as int);
        let ghost p0 = *pos;
        let f_unknown = match <u8 as Readable>::read(buf, pos) {
            Ok(v) => v,
            Err(e) => {
                return Err(e);
            },
        };
        assert(buf@.skip(*pos as int) =~= s.skip(*pos - p0));
        let f_welcome_msg = match <BigWideString as Readable>::read(buf, pos) {
            Ok(v) => v,
            Err(e) => {
                return Err(e);
            },
        };
        let v = WelcomeMessage { unknown: f_unknown, welcome_msg: f_welcome_msg };
        assert(v@ =~= WelcomeMessageView { unknown: f_unknown, welcome_msg: f_welcome_msg@ });
        Ok(v)
    }
}

/// A new driver occupied a car slot.
#[derive(Debug, Clone, PartialEq)]
pub struct CarConnected {
    pub car_id: u8,
    pub name: ByteString,
    pub nation: ByteString,
}

/// The mathematical view of [`CarConnected`].
#[verifier::ext_equal]
pub struct CarConnectedView {
    pub car_id: u8,
    pub name: Seq<u8>,
    pub nation: Seq<u8>,
}

impl View for CarConnected {
    type V = CarConnectedView;

    open spec fn view(&self) -> CarConnectedView {
        CarConnectedView {
            car_id: self.car_id,
            name: self.name@,
            nation: self.nation@,
        }
    }
}

impl Writeable for CarConnected {
    open spec fn wf_v(w: CarConnectedView) -> bool {
        &&& <ByteString as Writeable>::wf_v(w.name)
        &&& <ByteString as Writeable>::wf_v(w.nation)
    }

    open spec fn enc_v(w: CarConnectedView) -> Seq<u8> {
        <u8 as Writeable>::enc_v(w.car_id) + <ByteString as Writeable>::enc_v(w.name) + <ByteString as Writeable>::enc_v(w.nation)
    }

    fn write(&self, buffer: &mut Vec<u8>) {
        self.car_id.write(buffer);
        self.name.write(buffer);
        self.nation.write(buffer);
        assert(buffer@ =~= old(buffer)@ + Self::enc_v(self@));
    }
}

impl Readable for CarConnected {
    open spec fn dec_v(s: Seq<u8>) -> Option<(CarConnectedView, int)> {
        match <u8 as Readable>::dec_v(s) {
            None => None,
            Some((car_id, n1)) => 
            match <ByteString as Readable>::dec_v(s.skip(n1)) {
                None => None,
                Some((name, n2)) => 
                match <ByteString as Readable>::dec_v(s.skip(n1 + n2)) {
                    None => None,
                    Some((nation, n3)) => Some((CarConnectedView { car_id, name, nation }, n1 + n2 + n3)),
                },
            },
        }
    }

    open spec fn reads_to_end() -> bool {
        false
    }

    proof fn lemma_dec_sound(s: Seq<u8>) {
        <u8 as Readable>::lemma_dec_sound(s);
        if let Some((car_id, n1)) = <u8 as Readable>::dec_v(s) {
            <ByteString as Readable>::lemma_dec_sound(s.skip(n1));
            if let Some((name, n2)) = <ByteString as Readable>::dec_v(s.skip(n1)) {
                <ByteString as Readable>::lemma_dec_sound(s.skip(n1 + n2));
                if let Some((nation, n3)) = <ByteString as Readable>::dec_v(s.skip(n1 + n2)) {
                    assert(s.take(n1) + s.skip(n1).take(n2) =~= s.take(n1 + n2));
                    assert(s.take(n1 + n2) + s.skip(n1 + n2).take(n3) =~= s.take(n1 + n2 + n3));
                }
            }
        }
    }

    proof fn lemma_dec_complete(w: CarConnectedView, rest: Seq<u8>) {
        let e1 = <u8 as Writeable>::enc_v(w.car_id);
        let e2 = <ByteString as Writeable>::enc_v(w.name);
        let e3 = <ByteString as Writeable>::enc_v(w.nation);
        let r3 = rest;
        let r2 = e3 + r3;
        let r1 = e2 + r2;
        let s = Self::enc_v(w) + rest;
        assert(s =~= e1 + r1);
        <u8 as Readable>::lemma_dec_complete(w.car_id, r1);
        lemma_skip_concat(e1, r1);
        <ByteString as Readable>::lemma_dec_complete(w.name, r2);
        lemma_skip_concat(e2, r2);
        lemma_skip_skip(s, (e1.len()) as int, e2.len() as int);
        <ByteString as Readable>::lemma_dec_complete(w.nation, r3);
        lemma_skip_concat(e3, r3);
        lemma_skip_skip(s, (e1.len() + e2.len()) as int, e3.len() as int);
    }

    fn read(buf: &[u8], pos: &mut usize) -> (r: Result<CarConnected, Error>) {
        let ghost s = buf@.skip(*pos as int);
        let ghost p0 = *pos;
        let f_car_id = match <u8 as Readable>::read(buf, pos) {
            Ok(v) => v,
            Err(e) => {
                return Err(e);
            },
        };
        assert(buf@.skip(*pos as int) =~= s.skip(*pos - p0));
        let f_name = match <ByteString as Readable>::read(buf, pos) {
            Ok(v) => v,
            Err(e) => {
                return Err(e);
            },
        };
        assert(buf@.skip(*pos as int) =~= s.skip(*pos - p0));
        let f_nation = match <ByteString as Readable>::read(buf, pos) {
            Ok(v) => v,
            Err(e) => {
                return Err(e);
            },
        };
        let v = CarConnected { car_id: f_car_id, name: f_name, nation: f_nation };
        assert(v@ =~= CarConnectedView { car_id: f_car_id, name: f_name@, nation: f_nation@ });
        Ok(v)
    }
}

/// Seconds remaining in the current session.
#[derive(Debug, Clone, Copy, PartialEq, Eq, Structural)]
pub struct SessionTimeLeft {
    pub session_time_left: u32,
}

impl View for SessionTimeLeft {
    type V = SessionTimeLeft;

    open spec fn view(&self) -> SessionTimeLeft {
        *self
    }
}

impl Writeable for SessionTimeLeft {
    open spec fn wf_v(w: SessionTimeLeft) -> bool {
        true
    }

    open spec fn enc_v(w: SessionTimeLeft) -> Seq<u8> {
        <u32 as Writeable>::enc_v(w.session_time_left)
    }

    fn write(&self, buffer: &mut Vec<u8>) {
        self.session_time_left.write(buffer);
        assert(buffer@ =~= old(buffer)@ + Self::enc_v(self@));
    }
}

impl Readable for SessionTimeLeft {
    open spec fn dec_v(s: Seq<u8>) -> Option<(SessionTimeLeft, int)> {
        match <u32 as Readable>::dec_v(s) {
            None => None,
            Some((session_time_left, n1)) => Some((SessionTimeLeft { session_time_left }, n1)),
        }
    }

    open spec fn reads_to_end() -> bool {
        false
    }

    proof fn lemma_dec_sound(s: Seq<u8>) {
        <u32 as Readable>::lemma_dec_sound(s);
        if let Some((session_time_left, n1)) = <u32 as Readable>::dec_v(s) {
        }
    }

    proof fn lemma_dec_complete(w: SessionTimeLeft, rest: Seq<u8>) {
        let e1 = <u32 as Writeable>::enc_v(w.session_time_left);
        let r1 = rest;
        let s = Self::enc_v(w) + rest;
        assert(s =~= e1 + r1);
        <u32 as Readable>::lemma_dec_complete(w.session_time_left, r1);
        lemma_skip_concat(e1, r1);
    }

    fn read(buf: &[u8], pos: &mut usize) -> (r: Result<SessionTimeLeft, Error>) {
        let ghost s = buf@.skip(*pos as int);
        let ghost p0 = *pos;
        let f_session_time_left = match <u32 as Readable>::read(buf, pos) {
            Ok(v) => v,
            Err(e) => {
                return Err(e);
            },
        };
        let v = SessionTimeLeft { session_time_left: f_session_time_left };
        Ok(v)
    }
}

/// A cached ping row.
#[derive(Debug, Clone, Copy, PartialEq, Eq, Structural)]
pub struct PingCache {
    pub unknown: u8,
    pub ping_cache: u8,
}

impl View for PingCache {
    type V = PingCache;

    open spec fn view(&self) -> PingCache {
        *self
    }
}

impl Writeable for PingCache {
    open spec fn wf_v(w: PingCache) -> bool {
        true
    }

    open spec fn enc_v(w: PingCache) -> Seq<u8> {
        <u8 as Writeable>::enc_v(w.unknown) + <u8 as Writeable>::enc_v(w.ping_cache)
    }

    fn write(&self, buffer: &mut Vec<u8>) {
        self.unknown.write(buffer);
        self.ping_cache.write(buffer);
        assert(buffer@ =~= old(buffer)@ + Self::enc_v(self@));
    }
}

impl Readable for PingCache {
    open spec fn dec_v(s: Seq<u8>) -> Option<(PingCache, int)> {
        match <u8 as Readable>::dec_v(s) {
            None => None,
            Some((unknown, n1)) => 
            match <u8 as Readable>::dec_v(s.skip(n1)) {
                None => None,
                Some((ping_cache, n2)) => Some((PingCache { unknown, ping_cache }, n1 + n2)),
            },
        }
    }

    open spec fn reads_to_end() -> bool {
        false
    }

    proof fn lemma_dec_sound(s: Seq<u8>) {
        <u8 as Readable>::lemma_dec_sound(s);
        if let Some((unknown, n1)) = <u8 as Readable>::dec_v(s) {
            <u8 as Readable>::lemma_dec_sound(s.skip(n1));
            if let Some((ping_cache, n2)) = <u8 as Readable>::dec_v(s.skip(n1)) {
                assert(s.take(n1) + s.skip(n1).take(n2) =~= s.take(n1 + n2));
            }
        }
    }

    proof fn lemma_dec_complete(w: PingCache, rest: Seq<u8>) {
        let e1 = <u8 as Writeable>::enc_v(w.unknown);
        let e2 = <u8 as Writeable>::enc_v(w.ping_cache);
        let r2 = rest;
        let r1 = e2 + r2;
        let s = Self::enc_v(w) + rest;
        assert(s =~= e1 + r1);
        <u8 as Readable>::lemma_dec_complete(w.unknown, r1);
        lemma_skip_concat(e1, r1);
        <u8 as Readable>::lemma_dec_complete(w.ping_cache, r2);
        lemma_skip_concat(e2, r2);
        lemma_skip_skip(s, (e1.len()) as int, e2.len() as int);
    }

    fn read(buf: &[u8], pos: &mut usize) -> (r: Result<PingCache, Error>) {
        let ghost s = buf@.skip(*pos as int);
        let ghost p0 = *pos;
        let f_unknown = match <u8 as Readable>::read(buf, pos) {
            Ok(v) => v,
            Err(e) => {
                return Err(e);
            },
        };
        assert(buf@.skip(*pos as int) =~= s.skip(*pos - p0));
        let f_ping_cache = match <u8 as Readable>::read(buf, pos) {
            Ok(v) => v,
            Err(e) => {
                return Err(e);
            },
        };
        let v = PingCache { unknown: f_unknown, ping_cache: f_ping_cache };
        Ok(v)
    }
}

/// The state of a vote to advance to the next session.
#[derive(Debug, Clone, Copy, PartialEq, Eq, Structural)]
pub struct NextSessionVote {
    pub useless: u8,
    pub unknown: u8,
    pub unknown1: u8,
    pub dead_line: u32,
    pub last_voter: u8,
    pub last_vote: bool,
}

impl View for NextSessionVote {
    type V = NextSessionVote;

    open spec fn view(&self) -> NextSessionVote {
        *self
    }
}

impl Writeable for NextSessionVote {
    open spec fn wf_v(w: NextSessionVote) -> bool {
        true
    }

    open spec fn enc_v(w: NextSessionVote) -> Seq<u8> {
        <u8 as Writeable>::enc_v(w.useless) + <u8 as Writeable>::enc_v(w.unknown) + <u8 as Writeable>::enc_v(w.unknown1) + <u32 as Writeable>::enc_v(w.dead_line) + <u8 as Writeable>::enc_v(w.last_voter) + <bool as Writeable>::enc_v(w.last_vote)
    }

    fn write(&self, buffer: &mut Vec<u8>) {
        self.useless.write(buffer);
        self.unknown.write(buffer);
        self.unknown1.write(buffer);
        self.dead_line.write(buffer);
        self.last_voter.write(buffer);
        self.last_vote.write(buffer);
        assert(buffer@ =~= old(buffer)@ + Self::enc_v(self@));
    }
}

impl Readable for NextSessionVote {
    open spec fn dec_v(s: Seq<u8>) -> Option<(NextSessionVote, int)> {
        match <u8 as Readable>::dec_v(s) {
            None => None,
            Some((useless, n1)) => 
            match <u8 as Readable>::dec_v(s.skip(n1)) {
                None => None,
                Some((unknown, n2)) => 
                match <u8 as Readable>::dec_v(s.skip(n1 + n2)) {
                    None => None,
                    Some((unknown1, n3)) => 
                    match <u32 as Readable>::dec_v(s.skip(n1 + n2 + n3)) {
                        None => None,
                        Some((dead_line, n4)) => 
                        match <u8 as Readable>::dec_v(s.skip(n1 + n2 + n3 + n4)) {
                            None => None,
                            Some((last_voter, n5)) => 
                            match <bool as Readable>::dec_v(s.skip(n1 + n2 + n3 + n4 + n5)) {
                                None => None,
                                Some((last_vote, n6)) => Some((NextSessionVote { useless, unknown, unknown1, dead_line, last_voter, last_vote }, n1 + n2 + n3 + n4 + n5 + n6)),
                            },
                        },
                    },
                },
            },
        }
    }

    open spec fn reads_to_end() -> bool {
        false
    }

    proof fn lemma_dec_sound(s: Seq<u8>) {
        <u8 as Readable>::lemma_dec_sound(s);
        if let Some((useless, n1)) = <u8 as Readable>::dec_v(s) {
            <u8 as Readable>::lemma_dec_sound(s.skip(n1));
            if let Some((unknown, n2)) = <u8 as Readable>::dec_v(s.skip(n1)) {
                <u8 as Readable>::lemma_dec_sound(s.skip(n1 + n2));
                if let Some((unknown1, n3)) = <u8 as Readable>::dec_v(s.skip(n1 + n2)) {
                    <u32 as Readable>::lemma_dec_sound(s.skip(n1 + n2 + n3));
                    if let Some((dead_line, n4)) = <u32 as Readable>::dec_v(s.skip(n1 + n2 + n3)) {
                        <u8 as Readable>::lemma_dec_sound(s.skip(n1 + n2 + n3 + n4));
                        if let Some((last_voter, n5)) = <u8 as Readable>::dec_v(s.skip(n1 + n2 + n3 + n4)) {
                            <bool as Readable>::lemma_dec_sound(s.skip(n1 + n2 + n3 + n4 + n5));
                            if let Some((last_vote, n6)) = <bool as Readable>::dec_v(s.skip(n1 + n2 + n3 + n4 + n5)) {
                                assert(s.take(n1) + s.skip(n1).take(n2) =~= s.take(n1 + n2));
                                assert(s.take(n1 + n2) + s.skip(n1 + n2).take(n3) =~= s.take(n1 + n2 + n3));
                                assert(s.take(n1 + n2 + n3) + s.skip(n1 + n2 + n3).take(n4) =~= s.take(n1 + n2 + n3 + n4));
                                assert(s.take(n1 + n2 + n3 + n4) + s.skip(n1 + n2 + n3 + n4).take(n5) =~= s.take(n1 + n2 + n3 + n4 + n5));
                                assert(s.take(n1 + n2 + n3 + n4 + n5) + s.skip(n1 + n2 + n3 + n4 + n5).take(n6) =~= s.take(n1 + n2 + n3 + n4 + n5 + n6));
                            }
                        }
                    }
                }
            }
        }
    }

    proof fn lemma_dec_complete(w: NextSessionVote, rest: Seq<u8>) {
        let e1 = <u8 as Writeable>::enc_v(w.useless);
        let e2 = <u8 as Writeable>::enc_v(w.unknown);
        let e3 = <u8 as Writeable>::enc_v(w.unknown1);
        let e4 = <u32 as Writeable>::enc_v(w.dead_line);
        let e5 = <u8 as Writeable>::enc_v(w.last_voter);
        let e6 = <bool as Writeable>::enc_v(w.last_vote);
        let r6 = rest;
        let r5 = e6 + r6;
        let r4 = e5 + r5;
        let r3 = e4 + r4;
        let r2 = e3 + r3;
        let r1 = e2 + r2;
        let s = Self::enc_v(w) + rest;
        assert(s =~= e1 + r1);
        <u8 as Readable>::lemma_dec_complete(w.useless, r1);
        lemma_skip_concat(e1, r1);
        <u8 as Readable>::lemma_dec_complete(w.unknown, r2);
        lemma_skip_concat(e2, r2);
        lemma_skip_skip(s, (e1.len()) as int, e2.len() as int);
        <u8 as Readable>::lemma_dec_complete(w.unknown1, r3);
        lemma_skip_concat(e3, r3);
        lemma_skip_skip(s, (e1.len() + e2.len()) as int, e3.len() as int);
        <u32 as Readable>::lemma_dec_complete(w.dead_line, r4);
        lemma_skip_concat(e4, r4);
        lemma_skip_skip(s, (e1.len() + e2.len() + e3.len()) as int, e4.len() as int);
        <u8 as Readable>::lemma_dec_complete(w.last_voter, r5);
        lemma_skip_concat(e5, r5);
        lemma_skip_skip(s, (e1.len() + e2.len() + e3.len() + e4.len()) as int, e5.len() as int);
        <bool as Readable>::lemma_dec_complete(w.last_vote, r6);
        lemma_skip_concat(e6, r6);
        lemma_skip_skip(s, (e1.len() + e2.len() + e3.len() + e4.len() + e5.len()) as int, e6.len() as int);
    }

    fn read(buf: &[u8], pos: &mut usize) -> (r: Result<NextSessionVote, Error>) {
        let ghost s = buf@.skip(*pos as int);
        let ghost p0 = *pos;
        let f_useless = match <u8 as Readable>::read(buf, pos) {
            Ok(v) => v,
            Err(e) => {
                return Err(e);
            },
        };
        assert(buf@.skip(*pos as int) =~= s.skip(*pos - p0));
        let f_unknown = match <u8 as Readable>::read(buf, pos) {
            Ok(v) => v,
            Err(e) => {
                return Err(e);
            },
        };
        assert(buf@.skip(*pos as int) =~= s.skip(*pos - p0));
        let f_unknown1 = match <u8 as Readable>::read(buf, pos) {
            Ok(v) => v,
            Err(e) => {
                return Err(e);
            },
        };
        assert(buf@.skip(*pos as int) =~= s.skip(*pos - p0));
        let f_dead_line = match <u32 as Readable>::read(buf, pos) {
            Ok(v) => v,
            Err(e) => {
                return Err(e);
            },
        };
        assert(buf@.skip(*pos as int) =~= s.skip(*pos - p0));
        let f_last_voter = match <u8 as Readable>::read(buf, pos) {
            Ok(v) => v,
            Err(e) => {
                return Err(e);
            },
        };
        assert(buf@.skip(*pos as int) =~= s.skip(*pos - p0));
        let f_last_vote = match <bool as Readable>::read(buf, pos) {
            Ok(v) => v,
            Err(e) => {
                return Err(e);
            },
        };
        let v = NextSessionVote { useless: f_useless, unknown: f_unknown, unknown1: f_unknown1, dead_line: f_dead_line, last_voter: f_last_voter, last_vote: f_last_vote };
        Ok(v)
    }
}

/// The state of a vote to kick a driver.
#[derive(Debug, Clone, Copy, PartialEq, Eq, Structural)]
pub struct KickVote {
    pub car_id: u8,
    pub unknown: u8,
    pub unknown1: u8,
    pub dead_line: u32,
    pub last_voter: u8,
    pub last_vote: bool,
}

impl View for KickVote {
    type V = KickVote;

    open spec fn view(&self) -> KickVote {
        *self
    }
}

impl Writeable for KickVote {
    open spec fn wf_v(w: KickVote) -> bool {
        true
    }

    open spec fn enc_v(w: KickVote) -> Seq<u8> {
        <u8 as Writeable>::enc_v(w.car_id) + <u8 as Writeable>::enc_v(w.unknown) + <u8 as Writeable>::enc_v(w.unknown1) + <u32 as Writeable>::enc_v(w.dead_line) + <u8 as Writeable>::enc_v(w.last_voter) + <bool as Writeable>::enc_v(w.last_vote)
    }

    fn write(&self, buffer: &mut Vec<u8>) {
        self.car_id.write(buffer);
        self.unknown.write(buffer);
        self.unknown1.write(buffer);
        self.dead_line.write(buffer);
        self.last_voter.write(buffer);
        self.last_vote.write(buffer);
        assert(buffer@ =~= old(buffer)@ + Self::enc_v(self@));
    }
}

impl Readable for KickVote {
    open spec fn dec_v(s: Seq<u8>) -> Option<(KickVote, int)> {
        match <u8 as Readable>::dec_v(s) {
            None => None,
            Some((car_id, n1)) => 
            match <u8 as Readable>::dec_v(s.skip(n1)) {
                None => None,
                Some((unknown, n2)) => 
                match <u8 as Readable>::dec_v(s.skip(n1 + n2)) {
                    None => None,
                    Some((unknown1, n3)) => 
                    match <u32 as Readable>::dec_v(s.skip(n1 + n2 + n3)) {
                        None => None,
                        Some((dead_line, n4)) => 
                        match <u8 as Readable>::dec_v(s.skip(n1 + n2 + n3 + n4)) {
                            None => None,
                            Some((last_voter, n5)) => 
                            match <bool as Readable>::dec_v(s.skip(n1 + n2 + n3 + n4 + n5)) {
                                None => None,
                                Some((last_vote, n6)) => Some((KickVote { car_id, unknown, unknown1, dead_line, last_voter, last_vote }, n1 + n2 + n3 + n4 + n5 + n6)),
                            },
                        },
                    },
                },
            },
        }
    }

    open spec fn reads_to_end() -> bool {
        false
    }

    proof fn lemma_dec_sound(s: Seq<u8>) {
        <u8 as Readable>::lemma_dec_sound(s);
        if let Some((car_id, n1)) = <u8 as Readable>::dec_v(s) {
            <u8 as Readable>::lemma_dec_sound(s.skip(n1));
            if let Some((unknown, n2)) = <u8 as Readable>::dec_v(s.skip(n1)) {
                <u8 as Readable>::lemma_dec_sound(s.skip(n1 + n2));
                if let Some((unknown1, n3)) = <u8 as Readable>::dec_v(s.skip(n1 + n2)) {
                    <u32 as Readable>::lemma_dec_sound(s.skip(n1 + n2 + n3));
                    if let Some((dead_line, n4)) = <u32 as Readable>::dec_v(s.skip(n1 + n2 + n3)) {
                        <u8 as Readable>::lemma_dec_sound(s.skip(n1 + n2 + n3 + n4));
                        if let Some((last_voter, n5)) = <u8 as Readable>::dec_v(s.skip(n1 + n2 + n3 + n4)) {
                            <bool as Readable>::lemma_dec_sound(s.skip(n1 + n2 + n3 + n4 + n5));
                            if let Some((last_vote, n6)) = <bool as Readable>::dec_v(s.skip(n1 + n2 + n3 + n4 + n5)) {
                                assert(s.take(n1) + s.skip(n1).take(n2) =~= s.take(n1 + n2));
                                assert(s.take(n1 + n2) + s.skip(n1 + n2).take(n3) =~= s.take(n1 + n2 + n3));
                                assert(s.take(n1 + n2 + n3) + s.skip(n1 + n2 + n3).take(n4) =~= s.take(n1 + n2 + n3 + n4));
                                assert(s.take(n1 + n2 + n3 + n4) + s.skip(n1 + n2 + n3 + n4).take(n5) =~= s.take(n1 + n2 + n3 + n4 + n5));
                                assert(s.take(n1 + n2 + n3 + n4 + n5) + s.skip(n1 + n2 + n3 + n4 + n5).take(n6) =~= s.take(n1 + n2 + n3 + n4 + n5 + n6));
                            }
                        }
                    }
                }
            }
        }
    }

    proof fn lemma_dec_complete(w: KickVote, rest: Seq<u8>) {
        let e1 = <u8 as Writeable>::enc_v(w.car_id);
        let e2 = <u8 as Writeable>::enc_v(w.unknown);
        let e3 = <u8 as Writeable>::enc_v(w.unknown1);
        let e4 = <u32 as Writeable>::enc_v(w.dead_line);
        let e5 = <u8 as Writeable>::enc_v(w.last_voter);
        let e6 = <bool as Writeable>::enc_v(w.last_vote);
        let r6 = rest;
        let r5 = e6 + r6;
        let r4 = e5 + r5;
        let r3 = e4 + r4;
        let r2 = e3 + r3;
        let r1 = e2 + r2;
        let s = Self::enc_v(w) + rest;
        assert(s =~= e1 + r1);
        <u8 as Readable>::lemma_dec_complete(w.car_id, r1);
        lemma_skip_concat(e1, r1);
        <u8 as Readable>::lemma_dec_complete(w.unknown, r2);
        lemma_skip_concat(e2, r2);
        lemma_skip_skip(s, (e1.len()) as int, e2.len() as int);
        <u8 as Readable>::lemma_dec_complete(w.unknown1, r3);
        lemma_skip_concat(e3, r3);
        lemma_skip_skip(s, (e1.len() + e2.len()) as int, e3.len() as int);
        <u32 as Readable>::lemma_dec_complete(w.dead_line, r4);
        lemma_skip_concat(e4, r4);
        lemma_skip_skip(s, (e1.len() + e2.len() + e3.len()) as int, e4.len() as int);
        <u8 as Readable>::lemma_dec_complete(w.last_voter, r5);
        lemma_skip_concat(e5, r5);
        lemma_skip_skip(s, (e1.len() + e2.len() + e3.len() + e4.len()) as int, e5.len() as int);
        <bool as Readable>::lemma_dec_complete(w.last_vote, r6);
        lemma_skip_concat(e6, r6);
        lemma_skip_skip(s, (e1.len() + e2.len() + e3.len() + e4.len() + e5.len()) as int, e6.len() as int);
    }

    fn read(buf: &[u8], pos: &mut usize) -> (r: Result<KickVote, Error>) {
        let ghost s = buf@.skip(*pos as int);
        let ghost p0 = *pos;
        let f_car_id = match <u8 as Readable>::read(buf, pos) {
            Ok(v) => v,
            Err(e) => {
                return Err(e);
            },
        };
        assert(buf@.skip(*pos as int) =~= s.skip(*pos - p0));
        let f_unknown = match <u8 as Readable>::read(buf, pos) {
            Ok(v) => v,
            Err(e) => {
                return Err(e);
            },
        };
        assert(buf@.skip(*pos as int) =~= s.skip(*pos - p0));
        let f_unknown1 = match <u8 as Readable>::read(buf, pos) {
            Ok(v) => v,
            Err(e) => {
                return Err(e);
            },
        };
        assert(buf@.skip(*pos as int) =~= s.skip(*pos - p0));
        let f_dead_line = match <u32 as Readable>::read(buf, pos) {
            Ok(v) => v,
            Err(e) => {
                return Err(e);
            },
        };
        assert(buf@.skip(*pos as int) =~= s.skip(*pos - p0));
        let f_last_voter = match <u8 as Readable>::read(buf, pos) {
            Ok(v) => v,
            Err(e) => {
                return Err(e);
            },
        };
        assert(buf@.skip(*pos as int) =~= s.skip(*pos - p0));
        let f_last_vote = match <bool as Readable>::read(buf, pos) {
            Ok(v) => v,
            Err(e) => {
                return Err(e);
            },
        };
        let v = KickVote { car_id: f_car_id, unknown: f_unknown, unknown1: f_unknown1, dead_line: f_dead_line, last_voter: f_last_voter, last_vote: f_last_vote };
        Ok(v)
    }
}

/// The state of a vote to restart the session.
#[derive(Debug, Clone, Copy, PartialEq, Eq, Structural)]
pub struct RestartSessionVote {
    pub useless: u8,
    pub unknown: u8,
    pub unknown1: u8,
    pub dead_line: u32,
    pub last_voter: u8,
    pub last_vote: bool,
}

impl View for RestartSessionVote {
    type V = RestartSessionVote;

    open spec fn view(&self) -> RestartSessionVote {
        *self
    }
}

impl Writeable for RestartSessionVote {
    open spec fn wf_v(w: RestartSessionVote) -> bool {
        true
    }

    open spec fn enc_v(w: RestartSessionVote) -> Seq<u8> {
        <u8 as Writeable>::enc_v(w.useless) + <u8 as Writeable>::enc_v(w.unknown) + <u8 as Writeable>::enc_v(w.unknown1) + <u32 as Writeable>::enc_v(w.dead_line) + <u8 as Writeable>::enc_v(w.last_voter) + <bool as Writeable>::enc_v(w.last_vote)
    }

    fn write(&self, buffer: &mut Vec<u8>) {
        self.useless.write(buffer);
        self.unknown.write(buffer);
        self.unknown1.write(buffer);
        self.dead_line.write(buffer);
        self.last_voter.write(buffer);
        self.last_vote.write(buffer);
        assert(buffer@ =~= old(buffer)@ + Self::enc_v(self@));
    }
}

impl Readable for RestartSessionVote {
    open spec fn dec_v(s: Seq<u8>) -> Option<(RestartSessionVote, int)> {
        match <u8 as Readable>::dec_v(s) {
            None => None,
            Some((useless, n1)) => 
            match <u8 as Readable>::dec_v(s.skip(n1)) {
                None => None,
                Some((unknown, n2)) => 
                match <u8 as Readable>::dec_v(s.skip(n1 + n2)) {
                    None => None,
                    Some((unknown1, n3)) => 
                    match <u32 as Readable>::dec_v(s.skip(n1 + n2 + n3)) {
                        None => None,
                        Some((dead_line, n4)) => 
                        match <u8 as Readable>::dec_v(s.skip(n1 + n2 + n3 + n4)) {
                            None => None,
                            Some((last_voter, n5)) => 
                            match <bool as Readable>::dec_v(s.skip(n1 + n2 + n3 + n4 + n5)) {
                                None => None,
                                Some((last_vote, n6)) => Some((RestartSessionVote { useless, unknown, unknown1, dead_line, last_voter, last_vote }, n1 + n2 + n3 + n4 + n5 + n6)),
                            },
                        },
                    },
                },
            },
        }
    }

    open spec fn reads_to_end() -> bool {
        false
    }

    proof fn lemma_dec_sound(s: Seq<u8>) {
        <u8 as Readable>::lemma_dec_sound(s);
        if let Some((useless, n1)) = <u8 as Readable>::dec_v(s) {
            <u8 as Readable>::lemma_dec_sound(s.skip(n1));
            if let Some((unknown, n2)) = <u8 as Readable>::dec_v(s.skip(n1)) {
                <u8 as Readable>::lemma_dec_sound(s.skip(n1 + n2));
                if let Some((unknown1, n3)) = <u8 as Readable>::dec_v(s.skip(n1 + n2)) {
                    <u32 as Readable>::lemma_dec_sound(s.skip(n1 + n2 + n3));
                    if let Some((dead_line, n4)) = <u32 as Readable>::dec_v(s.skip(n1 + n2 + n3)) {
                        <u8 as Readable>::lemma_dec_sound(s.skip(n1 + n2 + n3 + n4));
                        if let Some((last_voter, n5)) = <u8 as Readable>::dec_v(s.skip(n1 + n2 + n3 + n4)) {
                            <bool as Readable>::lemma_dec_sound(s.skip(n1 + n2 + n3 + n4 + n5));
                            if let Some((last_vote, n6)) = <bool as Readable>::dec_v(s.skip(n1 + n2 + n3 + n4 + n5)) {
                                assert(s.take(n1) + s.skip(n1).take(n2) =~= s.take(n1 + n2));
                                assert(s.take(n1 + n2) + s.skip(n1 + n2).take(n3) =~= s.take(n1 + n2 + n3));
                                assert(s.take(n1 + n2 + n3) + s.skip(n1 + n2 + n3).take(n4) =~= s.take(n1 + n2 + n3 + n4));
                                assert(s.take(n1 + n2 + n3 + n4) + s.skip(n1 + n2 + n3 + n4).take(n5) =~= s.take(n1 + n2 + n3 + n4 + n5));
                                assert(s.take(n1 + n2 + n3 + n4 + n5) + s.skip(n1 + n2 + n3 + n4 + n5).take(n6) =~= s.take(n1 + n2 + n3 + n4 + n5 + n6));
                            }
                        }
                    }
                }
            }
        }
    }

    proof fn lemma_dec_complete(w: RestartSessionVote, rest: Seq<u8>) {
        let e1 = <u8 as Writeable>::enc_v(w.useless);
        let e2 = <u8 as Writeable>::enc_v(w.unknown);
        let e3 = <u8 as Writeable>::enc_v(w.unknown1);
        let e4 = <u32 as Writeable>::enc_v(w.dead_line);
        let e5 = <u8 as Writeable>::enc_v(w.last_voter);
        let e6 = <bool as Writeable>::enc_v(w.last_vote);
        let r6 = rest;
        let r5 = e6 + r6;
        let r4 = e5 + r5;
        let r3 = e4 + r4;
        let r2 = e3 + r3;
        let r1 = e2 + r2;
        let s = Self::enc_v(w) + rest;
        assert(s =~= e1 + r1);
        <u8 as Readable>::lemma_dec_complete(w.useless, r1);
        lemma_skip_concat(e1, r1);
        <u8 as Readable>::lemma_dec_complete(w.unknown, r2);
        lemma_skip_concat(e2, r2);
        lemma_skip_skip(s, (e1.len()) as int, e2.len() as int);
        <u8 as Readable>::lemma_dec_complete(w.unknown1, r3);
        lemma_skip_concat(e3, r3);
        lemma_skip_skip(s, (e1.len() + e2.len()) as int, e3.len() as int);
        <u32 as Readable>::lemma_dec_complete(w.dead_line, r4);
        lemma_skip_concat(e4, r4);
        lemma_skip_skip(s, (e1.len() + e2.len() + e3.len()) as int, e4.len() as int);
        <u8 as Readable>::lemma_dec_complete(w.last_voter, r5);
        lemma_skip_concat(e5, r5);
        lemma_skip_skip(s, (e1.len() + e2.len() + e3.len() + e4.len()) as int, e5.len() as int);
        <bool as Readable>::lemma_dec_complete(w.last_vote, r6);
        lemma_skip_concat(e6, r6);
        lemma_skip_skip(s, (e1.len() + e2.len() + e3.len() + e4.len() + e5.len()) as int, e6.len() as int);
    }

    fn read(buf: &[u8], pos: &mut usize) -> (r: Result<RestartSessionVote, Error>) {
        let ghost s = buf@.skip(*pos as int);
        let ghost p0 = *pos;
        let f_useless = match <u8 as Readable>::read(buf, pos) {
            Ok(v) => v,
            Err(e) => {
                return Err(e);
            },
        };
        assert(buf@.skip(*pos as int) =~= s.skip(*pos - p0));
        let f_unknown = match <u8 as Readable>::read(buf, pos) {
            Ok(v) => v,
            Err(e) => {
                return Err(e);
            },
        };
        assert(buf@.skip(*pos as int) =~= s.skip(*pos - p0));
        let f_unknown1 = match <u8 as Readable>::read(buf, pos) {
            Ok(v) => v,
            Err(e) => {
                return Err(e);
            },
        };
        assert(buf@.skip(*pos as int) =~= s.skip(*pos - p0));
        let f_dead_line = match <u32 as Readable>::read(buf, pos) {
            Ok(v) => v,
            Err(e) => {
                return Err(e);
            },
        };
        assert(buf@.skip(*pos as int) =~= s.skip(*pos - p0));
        let f_last_voter = match <u8 as Readable>::read(buf, pos) {
            Ok(v) => v,
            Err(e) => {
                return Err(e);
            },
        };
        assert(buf@.skip(*pos as int) =~= s.skip(*pos - p0));
        let f_last_vote = match <bool as Readable>::read(buf, pos) {
            Ok(v) => v,
            Err(e) => {
                return Err(e);
            },
        };
        let v = RestartSessionVote { useless: f_useless, unknown: f_unknown, unknown1: f_unknown1, dead_line: f_dead_line, last_voter: f_last_voter, last_vote: f_last_vote };
        Ok(v)
    }
}

/// Acknowledges the first datagram update of a client.
#[derive(Debug, Clone, Copy, PartialEq, Eq, Structural)]
pub struct ClientFirstUpdateUdp {
    pub car_id: u8,
}

impl View for ClientFirstUpdateUdp {
    type V = ClientFirstUpdateUdp;

    open spec fn view(&self) -> ClientFirstUpdateUdp {
        *self
    }
}

impl Writeable for ClientFirstUpdateUdp {
    open spec fn wf_v(w: ClientFirstUpdateUdp) -> bool {
        true
    }

    open spec fn enc_v(w: ClientFirstUpdateUdp) -> Seq<u8> {
        <u8 as Writeable>::enc_v(w.car_id)
    }

    fn write(&self, buffer: &mut Vec<u8>) {
        self.car_id.write(buffer);
        assert(buffer@ =~= old(buffer)@ + Self::enc_v(self@));
    }
}

impl Readable for ClientFirstUpdateUdp {
    open spec fn dec_v(s: Seq<u8>) -> Option<(ClientFirstUpdateUdp, int)> {
        match <u8 as Readable>::dec_v(s) {
            None => None,
            Some((car_id, n1)) => Some((ClientFirstUpdateUdp { car_id }, n1)),
        }
    }

    open spec fn reads_to_end() -> bool {
        false
    }

    proof fn lemma_dec_sound(s: Seq<u8>) {
        <u8 as Readable>::lemma_dec_sound(s);
        if let Some((car_id, n1)) = <u8 as Readable>::dec_v(s) {
        }
    }

    proof fn lemma_dec_complete(w: ClientFirstUpdateUdp, rest: Seq<u8>) {
        let e1 = <u8 as Writeable>::enc_v(w.car_id);
        let r1 = rest;
        let s = Self::enc_v(w) + rest;
        assert(s =~= e1 + r1);
        <u8 as Readable>::lemma_dec_complete(w.car_id, r1);
        lemma_skip_concat(e1, r1);
    }

    fn read(buf: &[u8], pos: &mut usize) -> (r: Result<ClientFirstUpdateUdp, Error>) {
        let ghost s = buf@.skip(*pos as int);
        let ghost p0 = *pos;
        let f_car_id = match <u8 as Readable>::read(buf, pos) {
            Ok(v) => v,
            Err(e) => {
                return Err(e);
            },
        };
        let v = ClientFirstUpdateUdp { car_id: f_car_id };
        Ok(v)
    }
}

/// Reply to a lobby probe: the lobby endpoint port.
#[derive(Debug, Clone, Copy, PartialEq, Eq, Structural)]
pub struct LobbyCheckMessage {
    pub http_port: u16,
}

impl View for LobbyCheckMessage {
    type V = LobbyCheckMessage;

    open spec fn view(&self) -> LobbyCheckMessage {
        *self
    }
}

impl Writeable for LobbyCheckMessage {
    open spec fn wf_v(w: LobbyCheckMessage) -> bool {
        true
    }

    open spec fn enc_v(w: LobbyCheckMessage) -> Seq<u8> {
        <u16 as Writeable>::enc_v(w.http_port)
    }

    fn write(&self, buffer: &mut Vec<u8>) {
        self.http_port.write(buffer);
        assert(buffer@ =~= old(buffer)@ + Self::enc_v(self@));
    }
}

impl Readable for LobbyCheckMessage {
    open spec fn dec_v(s: Seq<u8>) -> Option<(LobbyCheckMessage, int)> {
        match <u16 as Readable>::dec_v(s) {
            None => None,
            Some((http_port, n1)) => Some((LobbyCheckMessage { http_port }, n1)),
        }
    }

    open spec fn reads_to_end() -> bool {
        false
    }

    proof fn lemma_dec_sound(s: Seq<u8>) {
        <u16 as Readable>::lemma_dec_sound(s);
        if let Some((http_port, n1)) = <u16 as Readable>::dec_v(s) {
        }
    }

    proof fn lemma_dec_complete(w: LobbyCheckMessage, rest: Seq<u8>) {
        let e1 = <u16 as Writeable>::enc_v(w.http_port);
        let r1 = rest;
        let s = Self::enc_v(w) + rest;
        assert(s =~= e1 + r1);
        <u16 as Readable>::lemma_dec_complete(w.http_port, r1);
        lemma_skip_concat(e1, r1);
    }

    fn read(buf: &[u8], pos: &mut usize) -> (r: Result<LobbyCheckMessage, Error>) {
        let ghost s = buf@.skip(*pos as int);
        let ghost p0 = *pos;
        let f_http_port = match <u16 as Readable>::read(buf, pos) {
            Ok(v) => v,
            Err(e) => {
                return Err(e);
            },
        };
        let v = LobbyCheckMessage { http_port: f_http_port };
        Ok(v)
    }
}

/// Acknowledges a datagram address binding.
#[derive(Debug, Clone, Copy, PartialEq, Eq, Structural)]
pub struct UpdateUpdAddress {
}

impl View for UpdateUpdAddress {
    type V = UpdateUpdAddress;

    open spec fn view(&self) -> UpdateUpdAddress {
        *self
    }
}

impl Writeable for UpdateUpdAddress {
    open spec fn wf_v(w: UpdateUpdAddress) -> bool {
        true
    }

    open spec fn enc_v(w: UpdateUpdAddress) -> Seq<u8> {
        Seq::empty()
    }

    fn write(&self, buffer: &mut Vec<u8>) {
        assert(buffer@ =~= old(buffer)@ + Self::enc_v(self@));
    }
}

impl Readable for UpdateUpdAddress {
    open spec fn dec_v(s: Seq<u8>) -> Option<(UpdateUpdAddress, int)> {
        Some((UpdateUpdAddress {  }, 0int))
    }

    open spec fn reads_to_end() -> bool {
        false
    }

    proof fn lemma_dec_sound(s: Seq<u8>) {
    }

    proof fn lemma_dec_complete(w: UpdateUpdAddress, rest: Seq<u8>) {
        assert(Self::enc_v(w) + rest =~= rest);
        assert(w == UpdateUpdAddress {  });
    }

    fn read(buf: &[u8], pos: &mut usize) -> (r: Result<UpdateUpdAddress, Error>) {
        Ok(UpdateUpdAddress {  })
    }
}

/// A datagram frame whose meaning is not modelled.
#[derive(Debug, Clone, Copy, PartialEq, Eq, Structural)]
pub struct Unknown4 {
    pub unknown: u64,
    pub unknown2: u32,
}

impl View for Unknown4 {
    type V = Unknown4;

    open spec fn view(&self) -> Unknown4 {
        *self
    }
}

impl Writeable for Unknown4 {
    open spec fn wf_v(w: Unknown4) -> bool {
        true
    }

    open spec fn enc_v(w: Unknown4) -> Seq<u8> {
        <u64 as Writeable>::enc_v(w.unknown) + <u32 as Writeable>::enc_v(w.unknown2)
    }

    fn write(&self, buffer: &mut Vec<u8>) {
        self.unknown.write(buffer);
        self.unknown2.write(buffer);
        assert(buffer@ =~= old(buffer)@ + Self::enc_v(self@));
    }
}

impl Readable for Unknown4 {
    open spec fn dec_v(s: Seq<u8>) -> Option<(Unknown4, int)> {
        match <u64 as Readable>::dec_v(s) {
            None => None,
            Some((unknown, n1)) => 
            match <u32 as Readable>::dec_v(s.skip(n1)) {
                None => None,
                Some((unknown2, n2)) => Some((Unknown4 { unknown, unknown2 }, n1 + n2)),
            },
        }
    }

    open spec fn reads_to_end() -> bool {
        false
    }

    proof fn lemma_dec_sound(s: Seq<u8>) {
        <u64 as Readable>::lemma_dec_sound(s);
        if let Some((unknown, n1)) = <u64 as Readable>::dec_v(s) {
            <u32 as Readable>::lemma_dec_sound(s.skip(n1));
            if let Some((unknown2, n2)) = <u32 as Readable>::dec_v(s.skip(n1)) {
                assert(s.take(n1) + s.skip(n1).take(n2) =~= s.take(n1 + n2));
            }
        }
    }

    proof fn lemma_dec_complete(w: Unknown4, rest: Seq<u8>) {
        let e1 = <u64 as Writeable>::enc_v(w.unknown);
        let e2 = <u32 as Writeable>::enc_v(w.unknown2);
        let r2 = rest;
        let r1 = e2 + r2;
        let s = Self::enc_v(w) + rest;
        assert(s =~= e1 + r1);
        <u64 as Readable>::lemma_dec_complete(w.unknown, r1);
        lemma_skip_concat(e1, r1);
        <u32 as Readable>::lemma_dec_complete(w.unknown2, r2);
        lemma_skip_concat(e2, r2);
        lemma_skip_skip(s, (e1.len()) as int, e2.len() as int);
    }

    fn read(buf: &[u8], pos: &mut usize) -> (r: Result<Unknown4, Error>) {
        let ghost s = buf@.skip(*pos as int);
        let ghost p0 = *pos;
        let f_unknown = match <u64 as Readable>::read(buf, pos) {
            Ok(v) => v,
            Err(e) => {
                return Err(e);
            },
        };
        assert(buf@.skip(*pos as int) =~= s.skip(*pos - p0));
        let f_unknown2 = match <u32 as Readable>::read(buf, pos) {
            Ok(v) => v,
            Err(e) => {
                return Err(e);
            },
        };
        let v = Unknown4 { unknown: f_unknown, unknown2: f_unknown2 };
        Ok(v)
    }
}

/// A cached ping row in the alternate form.
#[derive(Debug, Clone, Copy, PartialEq, Eq, Structural)]
pub struct PingCache2 {
    pub useless: u8,
    pub ping_cache: u8,
}

impl View for PingCache2 {
    type V = PingCache2;

    open spec fn view(&self) -> PingCache2 {
        *self
    }
}

impl Writeable for PingCache2 {
    open spec fn wf_v(w: PingCache2) -> bool {
        true
    }

    open spec fn enc_v(w: PingCache2) -> Seq<u8> {
        <u8 as Writeable>::enc_v(w.useless) + <u8 as Writeable>::enc_v(w.ping_cache)
    }

    fn write(&self, buffer: &mut Vec<u8>) {
        self.useless.write(buffer);
        self.ping_cache.write(buffer);
        assert(buffer@ =~= old(buffer)@ + Self::enc_v(self@));
    }
}

impl Readable for PingCache2 {
    open spec fn dec_v(s: Seq<u8>) -> Option<(PingCache2, int)> {
        match <u8 as Readable>::dec_v(s) {
            None => None,
            Some((useless, n1)) => 
            match <u8 as Readable>::dec_v(s.skip(n1)) {
                None => None,
                Some((ping_cache, n2)) => Some((PingCache2 { useless, ping_cache }, n1 + n2)),
            },
        }
    }

    open spec fn reads_to_end() -> bool {
        false
    }

    proof fn lemma_dec_sound(s: Seq<u8>) {
        <u8 as Readable>::lemma_dec_sound(s);
        if let Some((useless, n1)) = <u8 as Readable>::dec_v(s) {
            <u8 as Readable>::lemma_dec_sound(s.skip(n1));
            if let Some((ping_cache, n2)) = <u8 as Readable>::dec_v(s.skip(n1)) {
                assert(s.take(n1) + s.skip(n1).take(n2) =~= s.take(n1 + n2));
            }
        }
    }

    proof fn lemma_dec_complete(w: PingCache2, rest: Seq<u8>) {
        let e1 = <u8 as Writeable>::enc_v(w.useless);
        let e2 = <u8 as Writeable>::enc_v(w.ping_cache);
        let r2 = rest;
        let r1 = e2 + r2;
        let s = Self::enc_v(w) + rest;
        assert(s =~= e1 + r1);
        <u8 as Readable>::lemma_dec_complete(w.useless, r1);
        lemma_skip_concat(e1, r1);
        <u8 as Readable>::lemma_dec_complete(w.ping_cache, r2);
        lemma_skip_concat(e2, r2);
        lemma_skip_skip(s, (e1.len()) as int, e2.len() as int);
    }

    fn read(buf: &[u8], pos: &mut usize) -> (r: Result<PingCache2, Error>) {
        let ghost s = buf@.skip(*pos as int);
        let ghost p0 = *pos;
        let f_useless = match <u8 as Readable>::read(buf, pos) {
            Ok(v) => v,
            Err(e) => {
                return Err(e);
            },
        };
        assert(buf@.skip(*pos as int) =~= s.skip(*pos - p0));
        let f_ping_cache = match <u8 as Readable>::read(buf, pos) {
            Ok(v) => v,
            Err(e) => {
                return Err(e);
            },
        };
        let v = PingCache2 { useless: f_useless, ping_cache: f_ping_cache };
        Ok(v)
    }
}

/// The position fan-out: one motion snapshot per client, sent to every
/// client on each tick.
#[derive(Debug, Clone, PartialEq)]
pub struct MegaPacket {
    pub timestamp: u32,
    pub ping: u16,
    pub position_updates: Vec<PositionUpdate>,
}

/// The mathematical view of [`MegaPacket`].
#[verifier::ext_equal]
pub struct MegaPacketView {
    pub timestamp: u32,
    pub ping: u16,
    pub position_updates: Seq<PositionUpdate>,
}

impl View for MegaPacket {
    type V = MegaPacketView;

    open spec fn view(&self) -> MegaPacketView {
        MegaPacketView {
            timestamp: self.timestamp,
            ping: self.ping,
            position_updates: views_of(self.position_updates@),
        }
    }
}

impl Writeable for MegaPacket {
    open spec fn wf_v(w: MegaPacketView) -> bool {
        wf_u8_vec::<PositionUpdate>(w.position_updates)
    }

    open spec fn enc_v(w: MegaPacketView) -> Seq<u8> {
        <u32 as Writeable>::enc_v(w.timestamp) + <u16 as Writeable>::enc_v(w.ping) + enc_u8_vec::<PositionUpdate>(w.position_updates)
    }

    fn write(&self, buffer: &mut Vec<u8>) {
        self.timestamp.write(buffer);
        self.ping.write(buffer);
        write_u8_vec::<PositionUpdate>(&self.position_updates, buffer);
        assert(buffer@ =~= old(buffer)@ + Self::enc_v(self@));
    }
}

impl Readable for MegaPacket {
    open spec fn dec_v(s: Seq<u8>) -> Option<(MegaPacketView, int)> {
        match <u32 as Readable>::dec_v(s) {
            None => None,
            Some((timestamp, n1)) => 
            match <u16 as Readable>::dec_v(s.skip(n1)) {
                None => None,
                Some((ping, n2)) => 
                match dec_u8_vec::<PositionUpdate>(s.skip(n1 + n2)) {
                    None => None,
                    Some((position_updates, n3)) => Some((MegaPacketView { timestamp, ping, position_updates }, n1 + n2 + n3)),
                },
            },
        }
    }

    open spec fn reads_to_end() -> bool {
        false
    }

    proof fn lemma_dec_sound(s: Seq<u8>) {
        <u32 as Readable>::lemma_dec_sound(s);
        if let Some((timestamp, n1)) = <u32 as Readable>::dec_v(s) {
            <u16 as Readable>::lemma_dec_sound(s.skip(n1));
            if let Some((ping, n2)) = <u16 as Readable>::dec_v(s.skip(n1)) {
                lemma_dec_u8_vec_sound::<PositionUpdate>(s.skip(n1 + n2));
                if let Some((position_updates, n3)) = dec_u8_vec::<PositionUpdate>(s.skip(n1 + n2)) {
                    assert(s.take(n1) + s.skip(n1).take(n2) =~= s.take(n1 + n2));
                    assert(s.take(n1 + n2) + s.skip(n1 + n2).take(n3) =~= s.take(n1 + n2 + n3));
                }
            }
        }
    }

    proof fn lemma_dec_complete(w: MegaPacketView, rest: Seq<u8>) {
        let e1 = <u32 as Writeable>::enc_v(w.timestamp);
        let e2 = <u16 as Writeable>::enc_v(w.ping);
        let e3 = enc_u8_vec::<PositionUpdate>(w.position_updates);
        let r3 = rest;
        let r2 = e3 + r3;
        let r1 = e2 + r2;
        let s = Self::enc_v(w) + rest;
        assert(s =~= e1 + r1);
        <u32 as Readable>::lemma_dec_complete(w.timestamp, r1);
        lemma_skip_concat(e1, r1);
        <u16 as Readable>::lemma_dec_complete(w.ping, r2);
        lemma_skip_concat(e2, r2);
        lemma_skip_skip(s, (e1.len()) as int, e2.len() as int);
        assert(!<PositionUpdate as Readable>::reads_to_end());
        lemma_dec_u8_vec_complete::<PositionUpdate>(w.position_updates, r3);
        lemma_skip_concat(e3, r3);
        lemma_skip_skip(s, (e1.len() + e2.len()) as int, e3.len() as int);
    }

    fn read(buf: &[u8], pos: &mut usize) -> (r: Result<MegaPacket, Error>) {
        let ghost s = buf@.skip(*pos as int);
        let ghost p0 = *pos;
        let f_timestamp = match <u32 as Readable>::read(buf, pos) {
            Ok(v) => v,
            Err(e) => {
                return Err(e);
            },
        };
        assert(buf@.skip(*pos as int) =~= s.skip(*pos - p0));
        let f_ping = match <u16 as Readable>::read(buf, pos) {
            Ok(v) => v,
            Err(e) => {
                return Err(e);
            },
        };
        assert(buf@.skip(*pos as int) =~= s.skip(*pos - p0));
        let f_position_updates = match read_u8_vec::<PositionUpdate>(buf, pos) {
            Ok(v) => v,
            Err(e) => {
                return Err(e);
            },
        };
        let v = MegaPacket { timestamp: f_timestamp, ping: f_ping, position_updates: f_position_updates };
        assert(v@ =~= MegaPacketView { timestamp: f_timestamp, ping: f_ping, position_updates: views_of(f_position_updates@) });
        Ok(v)
    }
}

/// The end-of-race report: one best-lap row per car, then a flag that
/// tells a racing client the race is over.
///
/// The packet has no element count: the decoder reads one row per seven
/// bytes remaining before the trailing boolean, so it only round-trips
/// when decoded from a frame that holds the packet and nothing else.
#[derive(Debug, Clone, PartialEq)]
pub struct RaceOver {
    pub lap_data: Vec<RaceBest>,
    pub unknown: bool,
}

/// The mathematical view of [`RaceOver`].
#[verifier::ext_equal]
pub struct RaceOverView {
    pub lap_data: Seq<RaceBest>,
    pub unknown: bool,
}

impl View for RaceOver {
    type V = RaceOverView;

    open spec fn view(&self) -> RaceOverView {
        RaceOverView { lap_data: views_of(self.lap_data@), unknown: self.unknown }
    }
}

/// Every best-lap row encodes to exactly seven bytes.
proof fn lemma_race_best_size()
    ensures
        forall|w: RaceBest| (#[trigger] <RaceBest as Writeable>::enc_v(w)).len() == 7,
{
    assert forall|w: RaceBest| (#[trigger] <RaceBest as Writeable>::enc_v(w)).len() == 7 by {
        vstd::bytes::lemma_auto_spec_u16_to_from_le_bytes();
        vstd::bytes::lemma_auto_spec_u32_to_from_le_bytes();
    }
}

impl Writeable for RaceOver {
    open spec fn wf_v(w: RaceOverView) -> bool {
        true
    }

    open spec fn enc_v(w: RaceOverView) -> Seq<u8> {
        enc_items::<RaceBest>(w.lap_data) + <bool as Writeable>::enc_v(w.unknown)
    }

    fn write(&self, buffer: &mut Vec<u8>) {
        write_items::<RaceBest>(&self.lap_data, buffer);
        self.unknown.write(buffer);
        assert(buffer@ =~= old(buffer)@ + Self::enc_v(self@));
    }
}

impl Readable for RaceOver {
    open spec fn dec_v(s: Seq<u8>) -> Option<(RaceOverView, int)> {
        if s.len() < 1 {
            None
        } else {
            let count = ((s.len() - 1) as nat) / 7;
            match dec_items::<RaceBest>(s, count) {
                Some((ws, m)) => match <bool as Readable>::dec_v(s.skip(m)) {
                    Some((b, n2)) => Some((RaceOverView { lap_data: ws, unknown: b }, m + n2)),
                    None => None,
                },
                None => None,
            }
        }
    }

    open spec fn reads_to_end() -> bool {
        true
    }

    proof fn lemma_dec_sound(s: Seq<u8>) {
        if s.len() >= 1 {
            let count = ((s.len() - 1) as nat) / 7;
            lemma_dec_items_sound::<RaceBest>(s, count);
            if let Some((ws, m)) = dec_items::<RaceBest>(s, count) {
                <bool as Readable>::lemma_dec_sound(s.skip(m));
                if let Some((b, n2)) = <bool as Readable>::dec_v(s.skip(m)) {
                    assert(s.take(m) + s.skip(m).take(n2) =~= s.take(m + n2));
                }
            }
        }
    }

    proof fn lemma_dec_complete(w: RaceOverView, rest: Seq<u8>) {
        lemma_race_best_size();
        lemma_enc_items_len_fixed::<RaceBest>(w.lap_data, 7);
        let e = enc_items::<RaceBest>(w.lap_data);
        let eb = <bool as Writeable>::enc_v(w.unknown);
        let s = Self::enc_v(w) + rest;
        assert(s =~= e + (eb + rest));
        assert(s.len() == 7 * w.lap_data.len() + 1);
        assert(((s.len() - 1) as nat) / 7 == w.lap_data.len()) by (nonlinear_arith)
            requires
                s.len() == 7 * w.lap_data.len() + 1,
        ;
        assert(!<RaceBest as Readable>::reads_to_end());
        lemma_dec_items_complete::<RaceBest>(w.lap_data, eb + rest);
        lemma_skip_concat(e, eb + rest);
        <bool as Readable>::lemma_dec_complete(w.unknown, rest);
    }

    fn read(buf: &[u8], pos: &mut usize) -> (r: Result<RaceOver, Error>) {
        let ghost s = buf@.skip(*pos as int);
        let ghost p0 = *pos;
        if buf.len() - *pos < 1 {
            assert(s.len() < 1);
            return Err(Error::UnexpectedEof);
        }
        let count = (buf.len() - *pos - 1) / 7;
        let lap_data = match read_items::<RaceBest>(buf, pos, count) {
            Ok(v) => v,
            Err(e) => {
                return Err(e);
            },
        };
        assert(buf@.skip(*pos as int) =~= s.skip(*pos - p0));
        let unknown = match bool::read(buf, pos) {
            Ok(v) => v,
            Err(e) => {
                return Err(e);
            },
        };
        let v = RaceOver { lap_data, unknown };
        assert(v@ =~= RaceOverView { lap_data: views_of(lap_data@), unknown });
        Ok(v)
    }
}


/// The current session pushed to one client: the descriptor, the grip,
/// the grid positions and a timestamp.
///
/// The packet has no count for the grid positions: the decoder reads one
/// byte per byte remaining before the trailing timestamp, so it only
/// round-trips when decoded from a frame that holds the packet and
/// nothing else.
#[derive(Debug, Clone, PartialEq)]
pub struct UpdateSession {
    pub session_name: ByteString,
    pub session_index: u8,
    pub session_type: SessionType,
    pub session_time: u16,
    pub session_laps: u16,
    pub grip_level: F32,
    pub grid_position: Vec<u8>,
    pub time: i64,
}

/// The mathematical view of [`UpdateSession`].
#[verifier::ext_equal]
pub struct UpdateSessionView {
    pub session_name: Seq<u8>,
    pub session_index: u8,
    pub session_type: SessionType,
    pub session_time: u16,
    pub session_laps: u16,
    pub grip_level: F32,
    pub grid_position: Seq<u8>,
    pub time: i64,
}

impl View for UpdateSession {
    type V = UpdateSessionView;

    open spec fn view(&self) -> UpdateSessionView {
        UpdateSessionView {
            session_name: self.session_name@,
            session_index: self.session_index,
            session_type: self.session_type,
            session_time: self.session_time,
            session_laps: self.session_laps,
            grip_level: self.grip_level,
            grid_position: views_of(self.grid_position@),
            time: self.time,
        }
    }
}

/// Every grid-position byte encodes to exactly one byte.
proof fn lemma_grid_byte_size()
    ensures
        forall|w: u8| (#[trigger] <u8 as Writeable>::enc_v(w)).len() == 1,
{
}

impl Writeable for UpdateSession {
    open spec fn wf_v(w: UpdateSessionView) -> bool {
        <ByteString as Writeable>::wf_v(w.session_name)
    }

    open spec fn enc_v(w: UpdateSessionView) -> Seq<u8> {
        <ByteString as Writeable>::enc_v(w.session_name) + <u8 as Writeable>::enc_v(
            w.session_index,
        ) + <SessionType as Writeable>::enc_v(w.session_type) + <u16 as Writeable>::enc_v(
            w.session_time,
        ) + <u16 as Writeable>::enc_v(w.session_laps) + F32::enc_v(w.grip_level) + enc_items::<
            u8,
        >(w.grid_position) + <i64 as Writeable>::enc_v(w.time)
    }

    #[verifier::rlimit(100)]
    #[verifier::spinoff_prover]
    fn write(&self, buffer: &mut Vec<u8>) {
        self.session_name.write(buffer);
        self.session_index.write(buffer);
        self.session_type.write(buffer);
        self.session_time.write(buffer);
        self.session_laps.write(buffer);
        self.grip_level.write(buffer);
        write_items::<u8>(&self.grid_position, buffer);
        self.time.write(buffer);
        assert(buffer@ =~= old(buffer)@ + Self::enc_v(self@));
    }
}

impl Readable for UpdateSession {
    open spec fn dec_v(s: Seq<u8>) -> Option<(UpdateSessionView, int)> {
        match <ByteString as Readable>::dec_v(s) {
            None => None,
            Some((session_name, n1)) => match <u8 as Readable>::dec_v(s.skip(n1)) {
                None => None,
                Some((session_index, n2)) => match <SessionType as Readable>::dec_v(
                    s.skip(n1 + n2),
                ) {
                    None => None,
                    Some((session_type, n3)) => match <u16 as Readable>::dec_v(
                        s.skip(n1 + n2 + n3),
                    ) {
                        None => None,
                        Some((session_time, n4)) => match <u16 as Readable>::dec_v(
                            s.skip(n1 + n2 + n3 + n4),
                        ) {
                            None => None,
                            Some((session_laps, n5)) => match F32::dec_v(
                                s.skip(n1 + n2 + n3 + n4 + n5),
                            ) {
                                None => None,
                                Some((grip_level, n6)) => {
                                    let c6 = n1 + n2 + n3 + n4 + n5 + n6;
                                    if s.len() < c6 + 8 {
                                        None
                                    } else {
                                        let count = (s.len() - c6 - 8) as nat;
                                        match dec_items::<u8>(s.skip(c6), count) {
                                            None => None,
                                            Some((grid_position, m)) => match <i64 as Readable>::dec_v(
                                                s.skip(c6 + m),
                                            ) {
                                                None => None,
                                                Some((time, n8)) => Some(
                                                    (
                                                        UpdateSessionView {
                                                            session_name,
                                                            session_index,
                                                            session_type,
                                                            session_time,
                                                            session_laps,
                                                            grip_level,
                                                            grid_position,
                                                            time,
                                                        },
                                                        c6 + m + n8,
                                                    ),
                                                ),
                                            },
                                        }
                                    }
                                },
                            },
                        },
                    },
                },
            },
        }
    }

    open spec fn reads_to_end() -> bool {
        true
    }

    #[verifier::rlimit(100)]
    #[verifier::spinoff_prover]
    proof fn lemma_dec_sound(s: Seq<u8>) {
        <ByteString as Readable>::lemma_dec_sound(s);
        if let Some((session_name, n1)) = <ByteString as Readable>::dec_v(s) {
            <u8 as Readable>::lemma_dec_sound(s.skip(n1));
            if let Some((session_index, n2)) = <u8 as Readable>::dec_v(s.skip(n1)) {
                <SessionType as Readable>::lemma_dec_sound(s.skip(n1 + n2));
                if let Some((session_type, n3)) = <SessionType as Readable>::dec_v(
                    s.skip(n1 + n2),
                ) {
                    <u16 as Readable>::lemma_dec_sound(s.skip(n1 + n2 + n3));
                    if let Some((session_time, n4)) = <u16 as Readable>::dec_v(
                        s.skip(n1 + n2 + n3),
                    ) {
                        <u16 as Readable>::lemma_dec_sound(s.skip(n1 + n2 + n3 + n4));
                        if let Some((session_laps, n5)) = <u16 as Readable>::dec_v(
                            s.skip(n1 + n2 + n3 + n4),
                        ) {
                            F32::lemma_dec_sound(s.skip(n1 + n2 + n3 + n4 + n5));
                            if let Some((grip_level, n6)) = F32::dec_v(
                                s.skip(n1 + n2 + n3 + n4 + n5),
                            ) {
                                let c6 = n1 + n2 + n3 + n4 + n5 + n6;
                                if s.len() >= c6 + 8 {
                                    let count = (s.len() - c6 - 8) as nat;
                                    lemma_dec_items_sound::<u8>(s.skip(c6), count);
                                    if let Some((grid_position, m)) = dec_items::<u8>(
                                        s.skip(c6),
                                        count,
                                    ) {
                                        <i64 as Readable>::lemma_dec_sound(s.skip(c6 + m));
                                        if let Some((time, n8)) = <i64 as Readable>::dec_v(
                                            s.skip(c6 + m),
                                        ) {
                                            assert(s.take(n1) + s.skip(n1).take(n2) =~= s.take(
                                                n1 + n2,
                                            ));
                                            assert(s.take(n1 + n2) + s.skip(n1 + n2).take(n3)
                                                =~= s.take(n1 + n2 + n3));
                                            assert(s.take(n1 + n2 + n3) + s.skip(
                                                n1 + n2 + n3,
                                            ).take(n4) =~= s.take(n1 + n2 + n3 + n4));
                                            assert(s.take(n1 + n2 + n3 + n4) + s.skip(
                                                n1 + n2 + n3 + n4,
                                            ).take(n5) =~= s.take(n1 + n2 + n3 + n4 + n5));
                                            assert(s.take(n1 + n2 + n3 + n4 + n5) + s.skip(
                                                n1 + n2 + n3 + n4 + n5,
                                            ).take(n6) =~= s.take(c6));
                                            assert(s.take(c6) + s.skip(c6).take(m) =~= s.take(
                                                c6 + m,
                                            ));
                                            assert(s.take(c6 + m) + s.skip(c6 + m).take(n8)
                                                =~= s.take(c6 + m + n8));
                                        }
                                    }
                                }
                            }
                        }
                    }
                }
            }
        }
    }

    #[verifier::rlimit(100)]
    #[verifier::spinoff_prover]
    proof fn lemma_dec_complete(w: UpdateSessionView, rest: Seq<u8>) {
        vstd::bytes::lemma_auto_spec_u64_to_from_le_bytes();
        let e1 = <ByteString as Writeable>::enc_v(w.session_name);
        let e2 = <u8 as Writeable>::enc_v(w.session_index);
        let e3 = <SessionType as Writeable>::enc_v(w.session_type);
        let e4 = <u16 as Writeable>::enc_v(w.session_time);
        let e5 = <u16 as Writeable>::enc_v(w.session_laps);
        let e6 = F32::enc_v(w.grip_level);
        let e7 = enc_items::<u8>(w.grid_position);
        let e8 = <i64 as Writeable>::enc_v(w.time);
        let r8 = rest;
        let r7 = e8 + r8;
        let r6 = e7 + r7;
        let r5 = e6 + r6;
        let r4 = e5 + r5;
        let r3 = e4 + r4;
        let r2 = e3 + r3;
        let r1 = e2 + r2;
        let s = Self::enc_v(w) + rest;
        assert(s =~= e1 + r1);
        <ByteString as Readable>::lemma_dec_complete(w.session_name, r1);
        lemma_skip_concat(e1, r1);
        <u8 as Readable>::lemma_dec_complete(w.session_index, r2);
        lemma_skip_concat(e2, r2);
        lemma_skip_skip(s, e1.len() as int, e2.len() as int);
        <SessionType as Readable>::lemma_dec_complete(w.session_type, r3);
        lemma_skip_concat(e3, r3);
        lemma_skip_skip(s, (e1.len() + e2.len()) as int, e3.len() as int);
        <u16 as Readable>::lemma_dec_complete(w.session_time, r4);
        lemma_skip_concat(e4, r4);
        lemma_skip_skip(s, (e1.len() + e2.len() + e3.len()) as int, e4.len() as int);
        <u16 as Readable>::lemma_dec_complete(w.session_laps, r5);
        lemma_skip_concat(e5, r5);
        lemma_skip_skip(s, (e1.len() + e2.len() + e3.len() + e4.len()) as int, e5.len() as int);
        F32::lemma_dec_complete(w.grip_level, r6);
        lemma_skip_concat(e6, r6);
        lemma_skip_skip(
            s,
            (e1.len() + e2.len() + e3.len() + e4.len() + e5.len()) as int,
            e6.len() as int,
        );
        let c6 = (e1.len() + e2.len() + e3.len() + e4.len() + e5.len() + e6.len()) as int;
        lemma_grid_byte_size();
        lemma_enc_items_len_fixed::<u8>(w.grid_position, 1);
        assert(e7.len() == w.grid_position.len());
        assert(e8.len() == 8);
        assert(s.len() == c6 + e7.len() + 8);
        assert(!<u8 as Readable>::reads_to_end());
        lemma_dec_items_complete::<u8>(w.grid_position, r7);
        lemma_skip_concat(e7, r7);
        lemma_skip_skip(s, c6, e7.len() as int);
        <i64 as Readable>::lemma_dec_complete(w.time, r8);
    }

    #[verifier::rlimit(100)]
    #[verifier::spinoff_prover]
    fn read(buf: &[u8], pos: &mut usize) -> (r: Result<UpdateSession, Error>) {
        let ghost s = buf@.skip(*pos as int);
        let ghost p0 = *pos;
        let f_session_name = match <ByteString as Readable>::read(buf, pos) {
            Ok(v) => v,
            Err(e) => {
                return Err(e);
            },
        };
        assert(buf@.skip(*pos as int) =~= s.skip(*pos - p0));
        let f_session_index = match u8::read(buf, pos) {
            Ok(v) => v,
            Err(e) => {
                return Err(e);
            },
        };
        assert(buf@.skip(*pos as int) =~= s.skip(*pos - p0));
        let f_session_type = match <SessionType as Readable>::read(buf, pos) {
            Ok(v) => v,
            Err(e) => {
                return Err(e);
            },
        };
        assert(buf@.skip(*pos as int) =~= s.skip(*pos - p0));
        let f_session_time = match u16::read(buf, pos) {
            Ok(v) => v,
            Err(e) => {
                return Err(e);
            },
        };
        assert(buf@.skip(*pos as int) =~= s.skip(*pos - p0));
        let f_session_laps = match u16::read(buf, pos) {
            Ok(v) => v,
            Err(e) => {
                return Err(e);
            },
        };
        assert(buf@.skip(*pos as int) =~= s.skip(*pos - p0));
        let f_grip_level = match F32::read(buf, pos) {
            Ok(v) => v,
            Err(e) => {
                return Err(e);
            },
        };
        assert(buf@.skip(*pos as int) =~= s.skip(*pos - p0));
        if buf.len() - *pos < 8 {
            assert(s.len() < (*pos - p0) + 8);
            return Err(Error::UnexpectedEof);
        }
        let count = buf.len() - *pos - 8;
        let f_grid_position = match read_items::<u8>(buf, pos, count) {
            Ok(v) => v,
            Err(e) => {
                return Err(e);
            },
        };
        assert(buf@.skip(*pos as int) =~= s.skip(*pos - p0));
        let f_time = match i64::read(buf, pos) {
            Ok(v) => v,
            Err(e) => {
                return Err(e);
            },
        };
        let v = UpdateSession {
            session_name: f_session_name,
            session_index: f_session_index,
            session_type: f_session_type,
            session_time: f_session_time,
            session_laps: f_session_laps,
            grip_level: f_grip_level,
            grid_position: f_grid_position,
            time: f_time,
        };
        assert(v@ =~= UpdateSessionView {
            session_name: f_session_name@,
            session_index: f_session_index,
            session_type: f_session_type,
            session_time: f_session_time,
            session_laps: f_session_laps,
            grip_level: f_grip_level,
            grid_position: views_of(f_grid_position@),
            time: f_time,
        });
        Ok(v)
    }
}


/// Every packet the server can send, dispatched by its packet-id
/// byte.  The race-over report and the session update read to the end of
/// the frame, so the catalogue as a whole only round-trips on exact
/// frames.
#[derive(Debug, Clone, PartialEq)]
pub enum TestServer {
    P2PCount(P2PCount),
    MandatoryPit(MandatoryPit),
    ClientFirstUpdateUdp(ClientFirstUpdateUdp),
    Banned(Banned),
    WrongPassword(WrongPassword),
    NewCarConnection(NewCarConnection),
    CarList(CarList),
    SessionTimeLeft(SessionTimeLeft),
    WrongProtocol(WrongProtocol),
    NoSlotsForCarModel(NoSlotsForCarModel),
    Chat(Chat),
    MegaPacket(MegaPacket),
    LapCompleted(LapCompleted),
    UpdateSession(UpdateSession),
    RaceOver(RaceOver),
    ClientDisconnect(ClientDisconnect),
    UpdateUpdAddress(UpdateUpdAddress),
    ChangeTireCompound(ChangeTireCompound),
    WelcomeMessage(WelcomeMessage),
    CarSetup(CarSetup),
    DRSZones(DRSZones),
    SunAngle(SunAngle),
    DamageUpdate(DamageUpdate),
    RaceStart(RaceStart),
    SectorSplit(SectorSplit),
    CarConnected(CarConnected),
    Names(Names),
    NextSessionVote(NextSessionVote),
    RestartSessionVote(RestartSessionVote),
    KickVote(KickVote),
    Kick(Kick),
    SessionClosed(SessionClosed),
    Unknown(Unknown),
    Bops(Bops),
    Weather(Weather),
    PingCache2(PingCache2),
    PingCache(PingCache),
    LobbyCheckMessage(LobbyCheckMessage),
    Unknown4(Unknown4),
    Ping(Ping),
}

/// The mathematical view of [`TestServer`].
#[verifier::ext_equal]
pub enum TestServerView {
    P2PCount(P2PCount),
    MandatoryPit(MandatoryPit),
    ClientFirstUpdateUdp(ClientFirstUpdateUdp),
    Banned(Banned),
    WrongPassword(WrongPassword),
    NewCarConnection(NewCarConnectionView),
    CarList(CarListView),
    SessionTimeLeft(SessionTimeLeft),
    WrongProtocol(WrongProtocol),
    NoSlotsForCarModel(NoSlotsForCarModel),
    Chat(ChatView),
    MegaPacket(MegaPacketView),
    LapCompleted(LapCompletedView),
    UpdateSession(UpdateSessionView),
    RaceOver(RaceOverView),
    ClientDisconnect(ClientDisconnect),
    UpdateUpdAddress(UpdateUpdAddress),
    ChangeTireCompound(ChangeTireCompoundView),
    WelcomeMessage(WelcomeMessageView),
    CarSetup(CarSetupView),
    DRSZones(DRSZonesView),
    SunAngle(SunAngle),
    DamageUpdate(DamageUpdate),
    RaceStart(RaceStart),
    SectorSplit(SectorSplit),
    CarConnected(CarConnectedView),
    Names(NamesView),
    NextSessionVote(NextSessionVote),
    RestartSessionVote(RestartSessionVote),
    KickVote(KickVote),
    Kick(Kick),
    SessionClosed(SessionClosed),
    Unknown(UnknownView),
    Bops(BopsView),
    Weather(WeatherView),
    PingCache2(PingCache2),
    PingCache(PingCache),
    LobbyCheckMessage(LobbyCheckMessage),
    Unknown4(Unknown4),
    Ping(Ping),
}

impl View for TestServer {
    type V = TestServerView;

    open spec fn view(&self) -> TestServerView {
        match self {
            TestServer::P2PCount(p) => TestServerView::P2PCount(p@),
            TestServer::MandatoryPit(p) => TestServerView::MandatoryPit(p@),
            TestServer::ClientFirstUpdateUdp(p) => TestServerView::ClientFirstUpdateUdp(p@),
            TestServer::Banned(p) => TestServerView::Banned(p@),
            TestServer::WrongPassword(p) => TestServerView::WrongPassword(p@),
            TestServer::NewCarConnection(p) => TestServerView::NewCarConnection(p@),
            TestServer::CarList(p) => TestServerView::CarList(p@),
            TestServer::SessionTimeLeft(p) => TestServerView::SessionTimeLeft(p@),
            TestServer::WrongProtocol(p) => TestServerView::WrongProtocol(p@),
            TestServer::NoSlotsForCarModel(p) => TestServerView::NoSlotsForCarModel(p@),
            TestServer::Chat(p) => TestServerView::Chat(p@),
            TestServer::MegaPacket(p) => TestServerView::MegaPacket(p@),
            TestServer::LapCompleted(p) => TestServerView::LapCompleted(p@),
            TestServer::UpdateSession(p) => TestServerView::UpdateSession(p@),
            TestServer::RaceOver(p) => TestServerView::RaceOver(p@),
            TestServer::ClientDisconnect(p) => TestServerView::ClientDisconnect(p@),
            TestServer::UpdateUpdAddress(p) => TestServerView::UpdateUpdAddress(p@),
            TestServer::ChangeTireCompound(p) => TestServerView::ChangeTireCompound(p@),
            TestServer::WelcomeMessage(p) => TestServerView::WelcomeMessage(p@),
            TestServer::CarSetup(p) => TestServerView::CarSetup(p@),
            TestServer::DRSZones(p) => TestServerView::DRSZones(p@),
            TestServer::SunAngle(p) => TestServerView::SunAngle(p@),
            TestServer::DamageUpdate(p) => TestServerView::DamageUpdate(p@),
            TestServer::RaceStart(p) => TestServerView::RaceStart(p@),
            TestServer::SectorSplit(p) => TestServerView::SectorSplit(p@),
            TestServer::CarConnected(p) => TestServerView::CarConnected(p@),
            TestServer::Names(p) => TestServerView::Names(p@),
            TestServer::NextSessionVote(p) => TestServerView::NextSessionVote(p@),
            TestServer::RestartSessionVote(p) => TestServerView::RestartSessionVote(p@),
            TestServer::KickVote(p) => TestServerView::KickVote(p@),
            TestServer::Kick(p) => TestServerView::Kick(p@),
            TestServer::SessionClosed(p) => TestServerView::SessionClosed(p@),
            TestServer::Unknown(p) => TestServerView::Unknown(p@),
            TestServer::Bops(p) => TestServerView::Bops(p@),
            TestServer::Weather(p) => TestServerView::Weather(p@),
            TestServer::PingCache2(p) => TestServerView::PingCache2(p@),
            TestServer::PingCache(p) => TestServerView::PingCache(p@),
            TestServer::LobbyCheckMessage(p) => TestServerView::LobbyCheckMessage(p@),
            TestServer::Unknown4(p) => TestServerView::Unknown4(p@),
            TestServer::Ping(p) => TestServerView::Ping(p@),
        }
    }
}

impl TestServer {
    /// The packet-id byte that discriminates a packet view on the wire.
    pub open spec fn spec_id(w: TestServerView) -> u8 {
        match w {
            TestServerView::P2PCount(_) => 0x0d,
            TestServerView::MandatoryPit(_) => 0x0e,
            TestServerView::ClientFirstUpdateUdp(_) => 0x3a,
            TestServerView::Banned(_) => 0x3b,
            TestServerView::WrongPassword(_) => 0x3c,
            TestServerView::NewCarConnection(_) => 0x3e,
            TestServerView::CarList(_) => 0x40,
            TestServerView::SessionTimeLeft(_) => 0x41,
            TestServerView::WrongProtocol(_) => 0x42,
            TestServerView::NoSlotsForCarModel(_) => 0x45,
            TestServerView::Chat(_) => 0x47,
            TestServerView::MegaPacket(_) => 0x48,
            TestServerView::LapCompleted(_) => 0x49,
            TestServerView::UpdateSession(_) => 0x4a,
            TestServerView::RaceOver(_) => 0x4b,
            TestServerView::ClientDisconnect(_) => 0x4d,
            TestServerView::UpdateUpdAddress(_) => 0x4e,
            TestServerView::ChangeTireCompound(_) => 0x50,
            TestServerView::WelcomeMessage(_) => 0x51,
            TestServerView::CarSetup(_) => 0x52,
            TestServerView::DRSZones(_) => 0x53,
            TestServerView::SunAngle(_) => 0x54,
            TestServerView::DamageUpdate(_) => 0x56,
            TestServerView::RaceStart(_) => 0x57,
            TestServerView::SectorSplit(_) => 0x58,
            TestServerView::CarConnected(_) => 0x5a,
            TestServerView::Names(_) => 0x5b,
            TestServerView::NextSessionVote(_) => 0x64,
            TestServerView::RestartSessionVote(_) => 0x65,
            TestServerView::KickVote(_) => 0x66,
            TestServerView::Kick(_) => 0x68,
            TestServerView::SessionClosed(_) => 0x6e,
            TestServerView::Unknown(_) => 0x6f,
            TestServerView::Bops(_) => 0x70,
            TestServerView::Weather(_) => 0x78,
            TestServerView::PingCache2(_) => 0x82,
            TestServerView::PingCache(_) => 0x8c,
            TestServerView::LobbyCheckMessage(_) => 0xc8,
            TestServerView::Unknown4(_) => 0xf8,
            TestServerView::Ping(_) => 0xf9,
        }
    }

    /// Returns the packet-id byte of this packet.
    pub fn id(&self) -> (r: u8)
        ensures
            r == Self::spec_id(self@),
    {
        match self {
            TestServer::P2PCount(_) => 0x0d,
            TestServer::MandatoryPit(_) => 0x0e,
            TestServer::ClientFirstUpdateUdp(_) => 0x3a,
            TestServer::Banned(_) => 0x3b,
            TestServer::WrongPassword(_) => 0x3c,
            TestServer::NewCarConnection(_) => 0x3e,
            TestServer::CarList(_) => 0x40,
            TestServer::SessionTimeLeft(_) => 0x41,
            TestServer::WrongProtocol(_) => 0x42,
            TestServer::NoSlotsForCarModel(_) => 0x45,
            TestServer::Chat(_) => 0x47,
            TestServer::MegaPacket(_) => 0x48,
            TestServer::LapCompleted(_) => 0x49,
            TestServer::UpdateSession(_) => 0x4a,
            TestServer::RaceOver(_) => 0x4b,
            TestServer::ClientDisconnect(_) => 0x4d,
            TestServer::UpdateUpdAddress(_) => 0x4e,
            TestServer::ChangeTireCompound(_) => 0x50,
            TestServer::WelcomeMessage(_) => 0x51,
            TestServer::CarSetup(_) => 0x52,
            TestServer::DRSZones(_) => 0x53,
            TestServer::SunAngle(_) => 0x54,
            TestServer::DamageUpdate(_) => 0x56,
            TestServer::RaceStart(_) => 0x57,
            TestServer::SectorSplit(_) => 0x58,
            TestServer::CarConnected(_) => 0x5a,
            TestServer::Names(_) => 0x5b,
            TestServer::NextSessionVote(_) => 0x64,
            TestServer::RestartSessionVote(_) => 0x65,
            TestServer::KickVote(_) => 0x66,
            TestServer::Kick(_) => 0x68,
            TestServer::SessionClosed(_) => 0x6e,
            TestServer::Unknown(_) => 0x6f,
            TestServer::Bops(_) => 0x70,
            TestServer::Weather(_) => 0x78,
            TestServer::PingCache2(_) => 0x82,
            TestServer::PingCache(_) => 0x8c,
            TestServer::LobbyCheckMessage(_) => 0xc8,
            TestServer::Unknown4(_) => 0xf8,
            TestServer::Ping(_) => 0xf9,
        }
    }
}

impl Writeable for TestServer {
    open spec fn wf_v(w: TestServerView) -> bool {
        match w {
            TestServerView::P2PCount(p) => <P2PCount as Writeable>::wf_v(p),
            TestServerView::MandatoryPit(p) => <MandatoryPit as Writeable>::wf_v(p),
            TestServerView::ClientFirstUpdateUdp(p) => <ClientFirstUpdateUdp as Writeable>::wf_v(p),
            TestServerView::Banned(p) => <Banned as Writeable>::wf_v(p),
            TestServerView::WrongPassword(p) => <WrongPassword as Writeable>::wf_v(p),
            TestServerView::NewCarConnection(p) => <NewCarConnection as Writeable>::wf_v(p),
            TestServerView::CarList(p) => <CarList as Writeable>::wf_v(p),
            TestServerView::SessionTimeLeft(p) => <SessionTimeLeft as Writeable>::wf_v(p),
            TestServerView::WrongProtocol(p) => <WrongProtocol as Writeable>::wf_v(p),
            TestServerView::NoSlotsForCarModel(p) => <NoSlotsForCarModel as Writeable>::wf_v(p),
            TestServerView::Chat(p) => <Chat as Writeable>::wf_v(p),
            TestServerView::MegaPacket(p) => <MegaPacket as Writeable>::wf_v(p),
            TestServerView::LapCompleted(p) => <LapCompleted as Writeable>::wf_v(p),
            TestServerView::UpdateSession(p) => <UpdateSession as Writeable>::wf_v(p),
            TestServerView::RaceOver(p) => <RaceOver as Writeable>::wf_v(p),
            TestServerView::ClientDisconnect(p) => <ClientDisconnect as Writeable>::wf_v(p),
            TestServerView::UpdateUpdAddress(p) => <UpdateUpdAddress as Writeable>::wf_v(p),
            TestServerView::ChangeTireCompound(p) => <ChangeTireCompound as Writeable>::wf_v(p),
            TestServerView::WelcomeMessage(p) => <WelcomeMessage as Writeable>::wf_v(p),
            TestServerView::CarSetup(p) => <CarSetup as Writeable>::wf_v(p),
            TestServerView::DRSZones(p) => <DRSZones as Writeable>::wf_v(p),
            TestServerView::SunAngle(p) => <SunAngle as Writeable>::wf_v(p),
            TestServerView::DamageUpdate(p) => <DamageUpdate as Writeable>::wf_v(p),
            TestServerView::RaceStart(p) => <RaceStart as Writeable>::wf_v(p),
            TestServerView::SectorSplit(p) => <SectorSplit as Writeable>::wf_v(p),
            TestServerView::CarConnected(p) => <CarConnected as Writeable>::wf_v(p),
            TestServerView::Names(p) => <Names as Writeable>::wf_v(p),
            TestServerView::NextSessionVote(p) => <NextSessionVote as Writeable>::wf_v(p),
            TestServerView::RestartSessionVote(p) => <RestartSessionVote as Writeable>::wf_v(p),
            TestServerView::KickVote(p) => <KickVote as Writeable>::wf_v(p),
            TestServerView::Kick(p) => <Kick as Writeable>::wf_v(p),
            TestServerView::SessionClosed(p) => <SessionClosed as Writeable>::wf_v(p),
            TestServerView::Unknown(p) => <Unknown as Writeable>::wf_v(p),
            TestServerView::Bops(p) => <Bops as Writeable>::wf_v(p),
            TestServerView::Weather(p) => <Weather as Writeable>::wf_v(p),
            TestServerView::PingCache2(p) => <PingCache2 as Writeable>::wf_v(p),
            TestServerView::PingCache(p) => <PingCache as Writeable>::wf_v(p),
            TestServerView::LobbyCheckMessage(p) => <LobbyCheckMessage as Writeable>::wf_v(p),
            TestServerView::Unknown4(p) => <Unknown4 as Writeable>::wf_v(p),
            TestServerView::Ping(p) => <Ping as Writeable>::wf_v(p),
        }
    }

    open spec fn enc_v(w: TestServerView) -> Seq<u8> {
        match w {
            TestServerView::P2PCount(p) => seq![0x0du8] + <P2PCount as Writeable>::enc_v(p),
            TestServerView::MandatoryPit(p) => seq![0x0eu8] + <MandatoryPit as Writeable>::enc_v(p),
            TestServerView::ClientFirstUpdateUdp(p) => seq![0x3au8] + <ClientFirstUpdateUdp as Writeable>::enc_v(p),
            TestServerView::Banned(p) => seq![0x3bu8] + <Banned as Writeable>::enc_v(p),
            TestServerView::WrongPassword(p) => seq![0x3cu8] + <WrongPassword as Writeable>::enc_v(p),
            TestServerView::NewCarConnection(p) => seq![0x3eu8] + <NewCarConnection as Writeable>::enc_v(p),
            TestServerView::CarList(p) => seq![0x40u8] + <CarList as Writeable>::enc_v(p),
            TestServerView::SessionTimeLeft(p) => seq![0x41u8] + <SessionTimeLeft as Writeable>::enc_v(p),
            TestServerView::WrongProtocol(p) => seq![0x42u8] + <WrongProtocol as Writeable>::enc_v(p),
            TestServerView::NoSlotsForCarModel(p) => seq![0x45u8] + <NoSlotsForCarModel as Writeable>::enc_v(p),
            TestServerView::Chat(p) => seq![0x47u8] + <Chat as Writeable>::enc_v(p),
            TestServerView::MegaPacket(p) => seq![0x48u8] + <MegaPacket as Writeable>::enc_v(p),
            TestServerView::LapCompleted(p) => seq![0x49u8] + <LapCompleted as Writeable>::enc_v(p),
            TestServerView::UpdateSession(p) => seq![0x4au8] + <UpdateSession as Writeable>::enc_v(p),
            TestServerView::RaceOver(p) => seq![0x4bu8] + <RaceOver as Writeable>::enc_v(p),
            TestServerView::ClientDisconnect(p) => seq![0x4du8] + <ClientDisconnect as Writeable>::enc_v(p),
            TestServerView::UpdateUpdAddress(p) => seq![0x4eu8] + <UpdateUpdAddress as Writeable>::enc_v(p),
            TestServerView::ChangeTireCompound(p) => seq![0x50u8] + <ChangeTireCompound as Writeable>::enc_v(p),
            TestServerView::WelcomeMessage(p) => seq![0x51u8] + <WelcomeMessage as Writeable>::enc_v(p),
            TestServerView::CarSetup(p) => seq![0x52u8] + <CarSetup as Writeable>::enc_v(p),
            TestServerView::DRSZones(p) => seq![0x53u8] + <DRSZones as Writeable>::enc_v(p),
            TestServerView::SunAngle(p) => seq![0x54u8] + <SunAngle as Writeable>::enc_v(p),
            TestServerView::DamageUpdate(p) => seq![0x56u8] + <DamageUpdate as Writeable>::enc_v(p),
            TestServerView::RaceStart(p) => seq![0x57u8] + <RaceStart as Writeable>::enc_v(p),
            TestServerView::SectorSplit(p) => seq![0x58u8] + <SectorSplit as Writeable>::enc_v(p),
            TestServerView::CarConnected(p) => seq![0x5au8] + <CarConnected as Writeable>::enc_v(p),
            TestServerView::Names(p) => seq![0x5bu8] + <Names as Writeable>::enc_v(p),
            TestServerView::NextSessionVote(p) => seq![0x64u8] + <NextSessionVote as Writeable>::enc_v(p),
            TestServerView::RestartSessionVote(p) => seq![0x65u8] + <RestartSessionVote as Writeable>::enc_v(p),
            TestServerView::KickVote(p) => seq![0x66u8] + <KickVote as Writeable>::enc_v(p),
            TestServerView::Kick(p) => seq![0x68u8] + <Kick as Writeable>::enc_v(p),
            TestServerView::SessionClosed(p) => seq![0x6eu8] + <SessionClosed as Writeable>::enc_v(p),
            TestServerView::Unknown(p) => seq![0x6fu8] + <Unknown as Writeable>::enc_v(p),
            TestServerView::Bops(p) => seq![0x70u8] + <Bops as Writeable>::enc_v(p),
            TestServerView::Weather(p) => seq![0x78u8] + <Weather as Writeable>::enc_v(p),
            TestServerView::PingCache2(p) => seq![0x82u8] + <PingCache2 as Writeable>::enc_v(p),
            TestServerView::PingCache(p) => seq![0x8cu8] + <PingCache as Writeable>::enc_v(p),
            TestServerView::LobbyCheckMessage(p) => seq![0xc8u8] + <LobbyCheckMessage as Writeable>::enc_v(p),
            TestServerView::Unknown4(p) => seq![0xf8u8] + <Unknown4 as Writeable>::enc_v(p),
            TestServerView::Ping(p) => seq![0xf9u8] + <Ping as Writeable>::enc_v(p),
        }
    }

    #[verifier::rlimit(100)]
    #[verifier::spinoff_prover]
    fn write(&self, buffer: &mut Vec<u8>) {
        match self {
            TestServer::P2PCount(p) => {
                buffer.push(0x0d);
                p.write(buffer);
                assert(buffer@ =~= old(buffer)@ + Self::enc_v(self@));
            },
            TestServer::MandatoryPit(p) => {
                buffer.push(0x0e);
                p.write(buffer);
                assert(buffer@ =~= old(buffer)@ + Self::enc_v(self@));
            },
            TestServer::ClientFirstUpdateUdp(p) => {
                buffer.push(0x3a);
                p.write(buffer);
                assert(buffer@ =~= old(buffer)@ + Self::enc_v(self@));
            },
            TestServer::Banned(p) => {
                buffer.push(0x3b);
                p.write(buffer);
                assert(buffer@ =~= old(buffer)@ + Self::enc_v(self@));
            },
            TestServer::WrongPassword(p) => {
                buffer.push(0x3c);
                p.write(buffer);
                assert(buffer@ =~= old(buffer)@ + Self::enc_v(self@));
            },
            TestServer::NewCarConnection(p) => {
                buffer.push(0x3e);
                p.write(buffer);
                assert(buffer@ =~= old(buffer)@ + Self::enc_v(self@));
            },
            TestServer::CarList(p) => {
                buffer.push(0x40);
                p.write(buffer);
                assert(buffer@ =~= old(buffer)@ + Self::enc_v(self@));
            },
            TestServer::SessionTimeLeft(p) => {
                buffer.push(0x41);
                p.write(buffer);
                assert(buffer@ =~= old(buffer)@ + Self::enc_v(self@));
            },
            TestServer::WrongProtocol(p) => {
                buffer.push(0x42);
                p.write(buffer);
                assert(buffer@ =~= old(buffer)@ + Self::enc_v(self@));
            },
            TestServer::NoSlotsForCarModel(p) => {
                buffer.push(0x45);
                p.write(buffer);
                assert(buffer@ =~= old(buffer)@ + Self::enc_v(self@));
            },
            TestServer::Chat(p) => {
                buffer.push(0x47);
                p.write(buffer);
                assert(buffer@ =~= old(buffer)@ + Self::enc_v(self@));
            },
            TestServer::MegaPacket(p) => {
                buffer.push(0x48);
                p.write(buffer);
                assert(buffer@ =~= old(buffer)@ + Self::enc_v(self@));
            },
            TestServer::LapCompleted(p) => {
                buffer.push(0x49);
                p.write(buffer);
                assert(buffer@ =~= old(buffer)@ + Self::enc_v(self@));
            },
            TestServer::UpdateSession(p) => {
                buffer.push(0x4a);
                p.write(buffer);
                assert(buffer@ =~= old(buffer)@ + Self::enc_v(self@));
            },
            TestServer::RaceOver(p) => {
                buffer.push(0x4b);
                p.write(buffer);
                assert(buffer@ =~= old(buffer)@ + Self::enc_v(self@));
            },
            TestServer::ClientDisconnect(p) => {
                buffer.push(0x4d);
                p.write(buffer);
                assert(buffer@ =~= old(buffer)@ + Self::enc_v(self@));
            },
            TestServer::UpdateUpdAddress(p) => {
                buffer.push(0x4e);
                p.write(buffer);
                assert(buffer@ =~= old(buffer)@ + Self::enc_v(self@));
            },
            TestServer::ChangeTireCompound(p) => {
                buffer.push(0x50);
                p.write(buffer);
                assert(buffer@ =~= old(buffer)@ + Self::enc_v(self@));
            },
            TestServer::WelcomeMessage(p) => {
                buffer.push(0x51);
                p.write(buffer);
                assert(buffer@ =~= old(buffer)@ + Self::enc_v(self@));
            },
            TestServer::CarSetup(p) => {
                buffer.push(0x52);
                p.write(buffer);
                assert(buffer@ =~= old(buffer)@ + Self::enc_v(self@));
            },
            TestServer::DRSZones(p) => {
                buffer.push(0x53);
                p.write(buffer);
                assert(buffer@ =~= old(buffer)@ + Self::enc_v(self@));
            },
            TestServer::SunAngle(p) => {
                buffer.push(0x54);
                p.write(buffer);
                assert(buffer@ =~= old(buffer)@ + Self::enc_v(self@));
            },
            TestServer::DamageUpdate(p) => {
                buffer.push(0x56);
                p.write(buffer);
                assert(buffer@ =~= old(buffer)@ + Self::enc_v(self@));
            },
            TestServer::RaceStart(p) => {
                buffer.push(0x57);
                p.write(buffer);
                assert(buffer@ =~= old(buffer)@ + Self::enc_v(self@));
            },
            TestServer::SectorSplit(p) => {
                buffer.push(0x58);
                p.write(buffer);
                assert(buffer@ =~= old(buffer)@ + Self::enc_v(self@));
            },
            TestServer::CarConnected(p) => {
                buffer.push(0x5a);
                p.write(buffer);
                assert(buffer@ =~= old(buffer)@ + Self::enc_v(self@));
            },
            TestServer::Names(p) => {
                buffer.push(0x5b);
                p.write(buffer);
                assert(buffer@ =~= old(buffer)@ + Self::enc_v(self@));
            },
            TestServer::NextSessionVote(p) => {
                buffer.push(0x64);
                p.write(buffer);
                assert(buffer@ =~= old(buffer)@ + Self::enc_v(self@));
            },
            TestServer::RestartSessionVote(p) => {
                buffer.push(0x65);
                p.write(buffer);
                assert(buffer@ =~= old(buffer)@ + Self::enc_v(self@));
            },
            TestServer::KickVote(p) => {
                buffer.push(0x66);
                p.write(buffer);
                assert(buffer@ =~= old(buffer)@ + Self::enc_v(self@));
            },
            TestServer::Kick(p) => {
                buffer.push(0x68);
                p.write(buffer);
                assert(buffer@ =~= old(buffer)@ + Self::enc_v(self@));
            },
            TestServer::SessionClosed(p) => {
                buffer.push(0x6e);
                p.write(buffer);
                assert(buffer@ =~= old(buffer)@ + Self::enc_v(self@));
            },
            TestServer::Unknown(p) => {
                buffer.push(0x6f);
                p.write(buffer);
                assert(buffer@ =~= old(buffer)@ + Self::enc_v(self@));
            },
            TestServer::Bops(p) => {
                buffer.push(0x70);
                p.write(buffer);
                assert(buffer@ =~= old(buffer)@ + Self::enc_v(self@));
            },
            TestServer::Weather(p) => {
                buffer.push(0x78);
                p.write(buffer);
                assert(buffer@ =~= old(buffer)@ + Self::enc_v(self@));
            },
            TestServer::PingCache2(p) => {
                buffer.push(0x82);
                p.write(buffer);
                assert(buffer@ =~= old(buffer)@ + Self::enc_v(self@));
            },
            TestServer::PingCache(p) => {
                buffer.push(0x8c);
                p.write(buffer);
                assert(buffer@ =~= old(buffer)@ + Self::enc_v(self@));
            },
            TestServer::LobbyCheckMessage(p) => {
                buffer.push(0xc8);
                p.write(buffer);
                assert(buffer@ =~= old(buffer)@ + Self::enc_v(self@));
            },
            TestServer::Unknown4(p) => {
                buffer.push(0xf8);
                p.write(buffer);
                assert(buffer@ =~= old(buffer)@ + Self::enc_v(self@));
            },
            TestServer::Ping(p) => {
                buffer.push(0xf9);
                p.write(buffer);
                assert(buffer@ =~= old(buffer)@ + Self::enc_v(self@));
            },
        }
    }
}

impl Readable for TestServer {
    open spec fn dec_v(s: Seq<u8>) -> Option<(TestServerView, int)> {
        if s.len() < 1 {
            None
        } else if s[0] == 0x0d {
            match <P2PCount as Readable>::dec_v(s.skip(1)) {
                Some((p, n)) => Some((TestServerView::P2PCount(p), 1 + n)),
                None => None,
            }
        } else if s[0] == 0x0e {
            match <MandatoryPit as Readable>::dec_v(s.skip(1)) {
                Some((p, n)) => Some((TestServerView::MandatoryPit(p), 1 + n)),
                None => None,
            }
        } else if s[0] == 0x3a {
            match <ClientFirstUpdateUdp as Readable>::dec_v(s.skip(1)) {
                Some((p, n)) => Some((TestServerView::ClientFirstUpdateUdp(p), 1 + n)),
                None => None,
            }
        } else if s[0] == 0x3b {
            match <Banned as Readable>::dec_v(s.skip(1)) {
                Some((p, n)) => Some((TestServerView::Banned(p), 1 + n)),
                None => None,
            }
        } else if s[0] == 0x3c {
            match <WrongPassword as Readable>::dec_v(s.skip(1)) {
                Some((p, n)) => Some((TestServerView::WrongPassword(p), 1 + n)),
                None => None,
            }
        } else if s[0] == 0x3e {
            match <NewCarConnection as Readable>::dec_v(s.skip(1)) {
                Some((p, n)) => Some((TestServerView::NewCarConnection(p), 1 + n)),
                None => None,
            }
        } else if s[0] == 0x40 {
            match <CarList as Readable>::dec_v(s.skip(1)) {
                Some((p, n)) => Some((TestServerView::CarList(p), 1 + n)),
                None => None,
            }
        } else if s[0] == 0x41 {
            match <SessionTimeLeft as Readable>::dec_v(s.skip(1)) {
                Some((p, n)) => Some((TestServerView::SessionTimeLeft(p), 1 + n)),
                None => None,
            }
        } else if s[0] == 0x42 {
            match <WrongProtocol as Readable>::dec_v(s.skip(1)) {
                Some((p, n)) => Some((TestServerView::WrongProtocol(p), 1 + n)),
                None => None,
            }
        } else if s[0] == 0x45 {
            match <NoSlotsForCarModel as Readable>::dec_v(s.skip(1)) {
                Some((p, n)) => Some((TestServerView::NoSlotsForCarModel(p), 1 + n)),
                None => None,
            }
        } else if s[0] == 0x47 {
            match <Chat as Readable>::dec_v(s.skip(1)) {
                Some((p, n)) => Some((TestServerView::Chat(p), 1 + n)),
                None => None,
            }
        } else if s[0] == 0x48 {
            match <MegaPacket as Readable>::dec_v(s.skip(1)) {
                Some((p, n)) => Some((TestServerView::MegaPacket(p), 1 + n)),
                None => None,
            }
        } else if s[0] == 0x49 {
            match <LapCompleted as Readable>::dec_v(s.skip(1)) {
                Some((p, n)) => Some((TestServerView::LapCompleted(p), 1 + n)),
                None => None,
            }
        } else if s[0] == 0x4a {
            match <UpdateSession as Readable>::dec_v(s.skip(1)) {
                Some((p, n)) => Some((TestServerView::UpdateSession(p), 1 + n)),
                None => None,
            }
        } else if s[0] == 0x4b {
            match <RaceOver as Readable>::dec_v(s.skip(1)) {
                Some((p, n)) => Some((TestServerView::RaceOver(p), 1 + n)),
                None => None,
            }
        } else if s[0] == 0x4d {
            match <ClientDisconnect as Readable>::dec_v(s.skip(1)) {
                Some((p, n)) => Some((TestServerView::ClientDisconnect(p), 1 + n)),
                None => None,
            }
        } else if s[0] == 0x4e {
            match <UpdateUpdAddress as Readable>::dec_v(s.skip(1)) {
                Some((p, n)) => Some((TestServerView::UpdateUpdAddress(p), 1 + n)),
                None => None,
            }
        } else if s[0] == 0x50 {
            match <ChangeTireCompound as Readable>::dec_v(s.skip(1)) {
                Some((p, n)) => Some((TestServerView::ChangeTireCompound(p), 1 + n)),
                None => None,
            }
        } else if s[0] == 0x51 {
            match <WelcomeMessage as Readable>::dec_v(s.skip(1)) {
                Some((p, n)) => Some((TestServerView::WelcomeMessage(p), 1 + n)),
                None => None,
            }
        } else if s[0] == 0x52 {
            match <CarSetup as Readable>::dec_v(s.skip(1)) {
                Some((p, n)) => Some((TestServerView::CarSetup(p), 1 + n)),
                None => None,
            }
        } else if s[0] == 0x53 {
            match <DRSZones as Readable>::dec_v(s.skip(1)) {
                Some((p, n)) => Some((TestServerView::DRSZones(p), 1 + n)),
                None => None,
            }
        } else if s[0] == 0x54 {
            match <SunAngle as Readable>::dec_v(s.skip(1)) {
                Some((p, n)) => Some((TestServerView::SunAngle(p), 1 + n)),
                None => None,
            }
        } else if s[0] == 0x56 {
            match <DamageUpdate as Readable>::dec_v(s.skip(1)) {
                Some((p, n)) => Some((TestServerView::DamageUpdate(p), 1 + n)),
                None => None,
            }
        } else if s[0] == 0x57 {
            match <RaceStart as Readable>::dec_v(s.skip(1)) {
                Some((p, n)) => Some((TestServerView::RaceStart(p), 1 + n)),
                None => None,
            }
        } else if s[0] == 0x58 {
            match <SectorSplit as Readable>::dec_v(s.skip(1)) {
                Some((p, n)) => Some((TestServerView::SectorSplit(p), 1 + n)),
                None => None,
            }
        } else if s[0] == 0x5a {
            match <CarConnected as Readable>::dec_v(s.skip(1)) {
                Some((p, n)) => Some((TestServerView::CarConnected(p), 1 + n)),
                None => None,
            }
        } else if s[0] == 0x5b {
            match <Names as Readable>::dec_v(s.skip(1)) {
                Some((p, n)) => Some((TestServerView::Names(p), 1 + n)),
                None => None,
            }
        } else if s[0] == 0x64 {
            match <NextSessionVote as Readable>::dec_v(s.skip(1)) {
                Some((p, n)) => Some((TestServerView::NextSessionVote(p), 1 + n)),
                None => None,
            }
        } else if s[0] == 0x65 {
            match <RestartSessionVote as Readable>::dec_v(s.skip(1)) {
                Some((p, n)) => Some((TestServerView::RestartSessionVote(p), 1 + n)),
                None => None,
            }
        } else if s[0] == 0x66 {
            match <KickVote as Readable>::dec_v(s.skip(1)) {
                Some((p, n)) => Some((TestServerView::KickVote(p), 1 + n)),
                None => None,
            }
        } else if s[0] == 0x68 {
            match <Kick as Readable>::dec_v(s.skip(1)) {
                Some((p, n)) => Some((TestServerView::Kick(p), 1 + n)),
                None => None,
            }
        } else if s[0] == 0x6e {
            match <SessionClosed as Readable>::dec_v(s.skip(1)) {
                Some((p, n)) => Some((TestServerView::SessionClosed(p), 1 + n)),
                None => None,
            }
        } else if s[0] == 0x6f {
            match <Unknown as Readable>::dec_v(s.skip(1)) {
                Some((p, n)) => Some((TestServerView::Unknown(p), 1 + n)),
                None => None,
            }
        } else if s[0] == 0x70 {
            match <Bops as Readable>::dec_v(s.skip(1)) {
                Some((p, n)) => Some((TestServerView::Bops(p), 1 + n)),
                None => None,
            }
        } else if s[0] == 0x78 {
            match <Weather as Readable>::dec_v(s.skip(1)) {
                Some((p, n)) => Some((TestServerView::Weather(p), 1 + n)),
                None => None,
            }
        } else if s[0] == 0x82 {
            match <PingCache2 as Readable>::dec_v(s.skip(1)) {
                Some((p, n)) => Some((TestServerView::PingCache2(p), 1 + n)),
                None => None,
            }
        } else if s[0] == 0x8c {
            match <PingCache as Readable>::dec_v(s.skip(1)) {
                Some((p, n)) => Some((TestServerView::PingCache(p), 1 + n)),
                None => None,
            }
        } else if s[0] == 0xc8 {
            match <LobbyCheckMessage as Readable>::dec_v(s.skip(1)) {
                Some((p, n)) => Some((TestServerView::LobbyCheckMessage(p), 1 + n)),
                None => None,
            }
        } else if s[0] == 0xf8 {
            match <Unknown4 as Readable>::dec_v(s.skip(1)) {
                Some((p, n)) => Some((TestServerView::Unknown4(p), 1 + n)),
                None => None,
            }
        } else if s[0] == 0xf9 {
            match <Ping as Readable>::dec_v(s.skip(1)) {
                Some((p, n)) => Some((TestServerView::Ping(p), 1 + n)),
                None => None,
            }
        } else {
            None
        }
    }

    open spec fn reads_to_end() -> bool {
        true
    }

    proof fn lemma_dec_sound(s: Seq<u8>) {
        if s.len() >= 1 {
            if s[0] == 0x0d {
                lemma_test_server_sound_p2_p_count(s);
            } else if s[0] == 0x0e {
                lemma_test_server_sound_mandatory_pit(s);
            } else if s[0] == 0x3a {
                lemma_test_server_sound_client_first_update_udp(s);
            } else if s[0] == 0x3b {
                lemma_test_server_sound_banned(s);
            } else if s[0] == 0x3c {
                lemma_test_server_sound_wrong_password(s);
            } else if s[0] == 0x3e {
                lemma_test_server_sound_new_car_connection(s);
            } else if s[0] == 0x40 {
                lemma_test_server_sound_car_list(s);
            } else if s[0] == 0x41 {
                lemma_test_server_sound_session_time_left(s);
            } else if s[0] == 0x42 {
                lemma_test_server_sound_wrong_protocol(s);
            } else if s[0] == 0x45 {
                lemma_test_server_sound_no_slots_for_car_model(s);
            } else if s[0] == 0x47 {
                lemma_test_server_sound_chat(s);
            } else if s[0] == 0x48 {
                lemma_test_server_sound_mega_packet(s);
            } else if s[0] == 0x49 {
                lemma_test_server_sound_lap_completed(s);
            } else if s[0] == 0x4a {
                lemma_test_server_sound_update_session(s);
            } else if s[0] == 0x4b {
                lemma_test_server_sound_race_over(s);
            } else if s[0] == 0x4d {
                lemma_test_server_sound_client_disconnect(s);
            } else if s[0] == 0x4e {
                lemma_test_server_sound_update_upd_address(s);
            } else if s[0] == 0x50 {
                lemma_test_server_sound_change_tire_compound(s);
            } else if s[0] == 0x51 {
                lemma_test_server_sound_welcome_message(s);
            } else if s[0] == 0x52 {
                lemma_test_server_sound_car_setup(s);
            } else if s[0] == 0x53 {
                lemma_test_server_sound_d_r_s_zones(s);
            } else if s[0] == 0x54 {
                lemma_test_server_sound_sun_angle(s);
            } else if s[0] == 0x56 {
                lemma_test_server_sound_damage_update(s);
            } else if s[0] == 0x57 {
                lemma_test_server_sound_race_start(s);
            } else if s[0] == 0x58 {
                lemma_test_server_sound_sector_split(s);
            } else if s[0] == 0x5a {
                lemma_test_server_sound_car_connected(s);
            } else if s[0] == 0x5b {
                lemma_test_server_sound_names(s);
            } else if s[0] == 0x64 {
                lemma_test_server_sound_next_session_vote(s);
            } else if s[0] == 0x65 {
                lemma_test_server_sound_restart_session_vote(s);
            } else if s[0] == 0x66 {
                lemma_test_server_sound_kick_vote(s);
            } else if s[0] == 0x68 {
                lemma_test_server_sound_kick(s);
            } else if s[0] == 0x6e {
                lemma_test_server_sound_session_closed(s);
            } else if s[0] == 0x6f {
                lemma_test_server_sound_unknown(s);
            } else if s[0] == 0x70 {
                lemma_test_server_sound_bops(s);
            } else if s[0] == 0x78 {
                lemma_test_server_sound_weather(s);
            } else if s[0] == 0x82 {
                lemma_test_server_sound_ping_cache2(s);
            } else if s[0] == 0x8c {
                lemma_test_server_sound_ping_cache(s);
            } else if s[0] == 0xc8 {
                lemma_test_server_sound_lobby_check_message(s);
            } else if s[0] == 0xf8 {
                lemma_test_server_sound_unknown4(s);
            } else if s[0] == 0xf9 {
                lemma_test_server_sound_ping(s);
            }
        }
    }

    proof fn lemma_dec_complete(w: TestServerView, rest: Seq<u8>) {
        match w {
            TestServerView::P2PCount(_) => lemma_test_server_complete_p2_p_count(w, rest),
            TestServerView::MandatoryPit(_) => lemma_test_server_complete_mandatory_pit(w, rest),
            TestServerView::ClientFirstUpdateUdp(_) => lemma_test_server_complete_client_first_update_udp(w, rest),
            TestServerView::Banned(_) => lemma_test_server_complete_banned(w, rest),
            TestServerView::WrongPassword(_) => lemma_test_server_complete_wrong_password(w, rest),
            TestServerView::NewCarConnection(_) => lemma_test_server_complete_new_car_connection(w, rest),
            TestServerView::CarList(_) => lemma_test_server_complete_car_list(w, rest),
            TestServerView::SessionTimeLeft(_) => lemma_test_server_complete_session_time_left(w, rest),
            TestServerView::WrongProtocol(_) => lemma_test_server_complete_wrong_protocol(w, rest),
            TestServerView::NoSlotsForCarModel(_) => lemma_test_server_complete_no_slots_for_car_model(w, rest),
            TestServerView::Chat(_) => lemma_test_server_complete_chat(w, rest),
            TestServerView::MegaPacket(_) => lemma_test_server_complete_mega_packet(w, rest),
            TestServerView::LapCompleted(_) => lemma_test_server_complete_lap_completed(w, rest),
            TestServerView::UpdateSession(_) => lemma_test_server_complete_update_session(w, rest),
            TestServerView::RaceOver(_) => lemma_test_server_complete_race_over(w, rest),
            TestServerView::ClientDisconnect(_) => lemma_test_server_complete_client_disconnect(w, rest),
            TestServerView::UpdateUpdAddress(_) => lemma_test_server_complete_update_upd_address(w, rest),
            TestServerView::ChangeTireCompound(_) => lemma_test_server_complete_change_tire_compound(w, rest),
            TestServerView::WelcomeMessage(_) => lemma_test_server_complete_welcome_message(w, rest),
            TestServerView::CarSetup(_) => lemma_test_server_complete_car_setup(w, rest),
            TestServerView::DRSZones(_) => lemma_test_server_complete_d_r_s_zones(w, rest),
            TestServerView::SunAngle(_) => lemma_test_server_complete_sun_angle(w, rest),
            TestServerView::DamageUpdate(_) => lemma_test_server_complete_damage_update(w, rest),
            TestServerView::RaceStart(_) => lemma_test_server_complete_race_start(w, rest),
            TestServerView::SectorSplit(_) => lemma_test_server_complete_sector_split(w, rest),
            TestServerView::CarConnected(_) => lemma_test_server_complete_car_connected(w, rest),
            TestServerView::Names(_) => lemma_test_server_complete_names(w, rest),
            TestServerView::NextSessionVote(_) => lemma_test_server_complete_next_session_vote(w, rest),
            TestServerView::RestartSessionVote(_) => lemma_test_server_complete_restart_session_vote(w, rest),
            TestServerView::KickVote(_) => lemma_test_server_complete_kick_vote(w, rest),
            TestServerView::Kick(_) => lemma_test_server_complete_kick(w, rest),
            TestServerView::SessionClosed(_) => lemma_test_server_complete_session_closed(w, rest),
            TestServerView::Unknown(_) => lemma_test_server_complete_unknown(w, rest),
            TestServerView::Bops(_) => lemma_test_server_complete_bops(w, rest),
            TestServerView::Weather(_) => lemma_test_server_complete_weather(w, rest),
            TestServerView::PingCache2(_) => lemma_test_server_complete_ping_cache2(w, rest),
            TestServerView::PingCache(_) => lemma_test_server_complete_ping_cache(w, rest),
            TestServerView::LobbyCheckMessage(_) => lemma_test_server_complete_lobby_check_message(w, rest),
            TestServerView::Unknown4(_) => lemma_test_server_complete_unknown4(w, rest),
            TestServerView::Ping(_) => lemma_test_server_complete_ping(w, rest),
        }
    }

    #[verifier::rlimit(100)]
    #[verifier::spinoff_prover]
    fn read(buf: &[u8], pos: &mut usize) -> (r: Result<TestServer, Error>) {
        let ghost s = buf@.skip(*pos as int);
        let id = match u8::read(buf, pos) {
            Ok(b) => b,
            Err(e) => {
                return Err(e);
            },
        };
        assert(s[0] == id);
        assert(buf@.skip(*pos as int) =~= s.skip(1));
        if id == 0x0d {
            read_test_server_p2_p_count(buf, pos)
        } else if id == 0x0e {
            read_test_server_mandatory_pit(buf, pos)
        } else if id == 0x3a {
            read_test_server_client_first_update_udp(buf, pos)
        } else if id == 0x3b {
            read_test_server_banned(buf, pos)
        } else if id == 0x3c {
            read_test_server_wrong_password(buf, pos)
        } else if id == 0x3e {
            read_test_server_new_car_connection(buf, pos)
        } else if id == 0x40 {
            read_test_server_car_list(buf, pos)
        } else if id == 0x41 {
            read_test_server_session_time_left(buf, pos)
        } else if id == 0x42 {
            read_test_server_wrong_protocol(buf, pos)
        } else if id == 0x45 {
            read_test_server_no_slots_for_car_model(buf, pos)
        } else if id == 0x47 {
            read_test_server_chat(buf, pos)
        } else if id == 0x48 {
            read_test_server_mega_packet(buf, pos)
        } else if id == 0x49 {
            read_test_server_lap_completed(buf, pos)
        } else if id == 0x4a {
            read_test_server_update_session(buf, pos)
        } else if id == 0x4b {
            read_test_server_race_over(buf, pos)
        } else if id == 0x4d {
            read_test_server_client_disconnect(buf, pos)
        } else if id == 0x4e {
            read_test_server_update_upd_address(buf, pos)
        } else if id == 0x50 {
            read_test_server_change_tire_compound(buf, pos)
        } else if id == 0x51 {
            read_test_server_welcome_message(buf, pos)
        } else if id == 0x52 {
            read_test_server_car_setup(buf, pos)
        } else if id == 0x53 {
            read_test_server_d_r_s_zones(buf, pos)
        } else if id == 0x54 {
            read_test_server_sun_angle(buf, pos)
        } else if id == 0x56 {
            read_test_server_damage_update(buf, pos)
        } else if id == 0x57 {
            read_test_server_race_start(buf, pos)
        } else if id == 0x58 {
            read_test_server_sector_split(buf, pos)
        } else if id == 0x5a {
            read_test_server_car_connected(buf, pos)
        } else if id == 0x5b {
            read_test_server_names(buf, pos)
        } else if id == 0x64 {
            read_test_server_next_session_vote(buf, pos)
        } else if id == 0x65 {
            read_test_server_restart_session_vote(buf, pos)
        } else if id == 0x66 {
            read_test_server_kick_vote(buf, pos)
        } else if id == 0x68 {
            read_test_server_kick(buf, pos)
        } else if id == 0x6e {
            read_test_server_session_closed(buf, pos)
        } else if id == 0x6f {
            read_test_server_unknown(buf, pos)
        } else if id == 0x70 {
            read_test_server_bops(buf, pos)
        } else if id == 0x78 {
            read_test_server_weather(buf, pos)
        } else if id == 0x82 {
            read_test_server_ping_cache2(buf, pos)
        } else if id == 0x8c {
            read_test_server_ping_cache(buf, pos)
        } else if id == 0xc8 {
            read_test_server_lobby_check_message(buf, pos)
        } else if id == 0xf8 {
            read_test_server_unknown4(buf, pos)
        } else if id == 0xf9 {
            read_test_server_ping(buf, pos)
        } else {
            Err(Error::UnknownPacketId)
        }
    }
}

/// Soundness of the catalogue decoder on a frame whose id byte names
/// this packet.
#[verifier::rlimit(100)]
#[verifier::spinoff_prover]
proof fn lemma_test_server_sound_p2_p_count(s: Seq<u8>)
    requires
        s.len() >= 1,
        s[0] == 0x0d,
    ensures
        (match <TestServer as Readable>::dec_v(s) {
            Some((w, n)) => <TestServer as Writeable>::wf_v(w) && 0 <= n <= s.len()
                && <TestServer as Writeable>::enc_v(w) == s.take(n),
            None => true,
        }),
{
    <P2PCount as Readable>::lemma_dec_sound(s.skip(1));
    if let Some((p, n)) = <P2PCount as Readable>::dec_v(s.skip(1)) {
        assert(seq![s[0]] + s.skip(1).take(n) =~= s.take(1 + n));
    }
}

/// Completeness of the catalogue decoder for this packet.
#[verifier::rlimit(100)]
#[verifier::spinoff_prover]
proof fn lemma_test_server_complete_p2_p_count(w: TestServerView, rest: Seq<u8>)
    requires
        <TestServer as Writeable>::wf_v(w),
        rest.len() == 0,
        w matches TestServerView::P2PCount(_),
    ensures
        <TestServer as Readable>::dec_v(<TestServer as Writeable>::enc_v(w) + rest) == Some(
            (w, <TestServer as Writeable>::enc_v(w).len() as int),
        ),
{
    let s = <TestServer as Writeable>::enc_v(w) + rest;
    match w {
        TestServerView::P2PCount(p) => {
            assert(s[0] == 0x0du8);
            assert(s.skip(1) =~= <P2PCount as Writeable>::enc_v(p) + rest);
            <P2PCount as Readable>::lemma_dec_complete(p, rest);
        },
        _ => {},
    }
}

/// Soundness of the catalogue decoder on a frame whose id byte names
/// this packet.
#[verifier::rlimit(100)]
#[verifier::spinoff_prover]
proof fn lemma_test_server_sound_mandatory_pit(s: Seq<u8>)
    requires
        s.len() >= 1,
        s[0] == 0x0e,
    ensures
        (match <TestServer as Readable>::dec_v(s) {
            Some((w, n)) => <TestServer as Writeable>::wf_v(w) && 0 <= n <= s.len()
                && <TestServer as Writeable>::enc_v(w) == s.take(n),
            None => true,
        }),
{
    <MandatoryPit as Readable>::lemma_dec_sound(s.skip(1));
    if let Some((p, n)) = <MandatoryPit as Readable>::dec_v(s.skip(1)) {
        assert(seq![s[0]] + s.skip(1).take(n) =~= s.take(1 + n));
    }
}

/// Completeness of the catalogue decoder for this packet.
#[verifier::rlimit(100)]
#[verifier::spinoff_prover]
proof fn lemma_test_server_complete_mandatory_pit(w: TestServerView, rest: Seq<u8>)
    requires
        <TestServer as Writeable>::wf_v(w),
        rest.len() == 0,
        w matches TestServerView::MandatoryPit(_),
    ensures
        <TestServer as Readable>::dec_v(<TestServer as Writeable>::enc_v(w) + rest) == Some(
            (w, <TestServer as Writeable>::enc_v(w).len() as int),
        ),
{
    let s = <TestServer as Writeable>::enc_v(w) + rest;
    match w {
        TestServerView::MandatoryPit(p) => {
            assert(s[0] == 0x0eu8);
            assert(s.skip(1) =~= <MandatoryPit as Writeable>::enc_v(p) + rest);
            <MandatoryPit as Readable>::lemma_dec_complete(p, rest);
        },
        _ => {},
    }
}

/// Soundness of the catalogue decoder on a frame whose id byte names
/// this packet.
#[verifier::rlimit(100)]
#[verifier::spinoff_prover]
proof fn lemma_test_server_sound_client_first_update_udp(s: Seq<u8>)
    requires
        s.len() >= 1,
        s[0] == 0x3a,
    ensures
        (match <TestServer as Readable>::dec_v(s) {
            Some((w, n)) => <TestServer as Writeable>::wf_v(w) && 0 <= n <= s.len()
                && <TestServer as Writeable>::enc_v(w) == s.take(n),
            None => true,
        }),
{
    <ClientFirstUpdateUdp as Readable>::lemma_dec_sound(s.skip(1));
    if let Some((p, n)) = <ClientFirstUpdateUdp as Readable>::dec_v(s.skip(1)) {
        assert(seq![s[0]] + s.skip(1).take(n) =~= s.take(1 + n));
    }
}

/// Completeness of the catalogue decoder for this packet.
#[verifier::rlimit(100)]
#[verifier::spinoff_prover]
proof fn lemma_test_server_complete_client_first_update_udp(w: TestServerView, rest: Seq<u8>)
    requires
        <TestServer as Writeable>::wf_v(w),
        rest.len() == 0,
        w matches TestServerView::ClientFirstUpdateUdp(_),
    ensures
        <TestServer as Readable>::dec_v(<TestServer as Writeable>::enc_v(w) + rest) == Some(
            (w, <TestServer as Writeable>::enc_v(w).len() as int),
        ),
{
    let s = <TestServer as Writeable>::enc_v(w) + rest;
    match w {
        TestServerView::ClientFirstUpdateUdp(p) => {
            assert(s[0] == 0x3au8);
            assert(s.skip(1) =~= <ClientFirstUpdateUdp as Writeable>::enc_v(p) + rest);
            <ClientFirstUpdateUdp as Readable>::lemma_dec_complete(p, rest);
        },
        _ => {},
    }
}

/// Soundness of the catalogue decoder on a frame whose id byte names
/// this packet.
#[verifier::rlimit(100)]
#[verifier::spinoff_prover]
proof fn lemma_test_server_sound_banned(s: Seq<u8>)
    requires
        s.len() >= 1,
        s[0] == 0x3b,
    ensures
        (match <TestServer as Readable>::dec_v(s) {
            Some((w, n)) => <TestServer as Writeable>::wf_v(w) && 0 <= n <= s.len()
                && <TestServer as Writeable>::enc_v(w) == s.take(n),
            None => true,
        }),
{
    <Banned as Readable>::lemma_dec_sound(s.skip(1));
    if let Some((p, n)) = <Banned as Readable>::dec_v(s.skip(1)) {
        assert(seq![s[0]] + s.skip(1).take(n) =~= s.take(1 + n));
    }
}

/// Completeness of the catalogue decoder for this packet.
#[verifier::rlimit(100)]
#[verifier::spinoff_prover]
proof fn lemma_test_server_complete_banned(w: TestServerView, rest: Seq<u8>)
    requires
        <TestServer as Writeable>::wf_v(w),
        rest.len() == 0,
        w matches TestServerView::Banned(_),
    ensures
        <TestServer as Readable>::dec_v(<TestServer as Writeable>::enc_v(w) + rest) == Some(
            (w, <TestServer as Writeable>::enc_v(w).len() as int),
        ),
{
    let s = <TestServer as Writeable>::enc_v(w) + rest;
    match w {
        TestServerView::Banned(p) => {
            assert(s[0] == 0x3bu8);
            assert(s.skip(1) =~= <Banned as Writeable>::enc_v(p) + rest);
            <Banned as Readable>::lemma_dec_complete(p, rest);
        },
        _ => {},
    }
}

/// Soundness of the catalogue decoder on a frame whose id byte names
/// this packet.
#[verifier::rlimit(100)]
#[verifier::spinoff_prover]
proof fn lemma_test_server_sound_wrong_password(s: Seq<u8>)
    requires
        s.len() >= 1,
        s[0] == 0x3c,
    ensures
        (match <TestServer as Readable>::dec_v(s) {
            Some((w, n)) => <TestServer as Writeable>::wf_v(w) && 0 <= n <= s.len()
                && <TestServer as Writeable>::enc_v(w) == s.take(n),
            None => true,
        }),
{
    <WrongPassword as Readable>::lemma_dec_sound(s.skip(1));
    if let Some((p, n)) = <WrongPassword as Readable>::dec_v(s.skip(1)) {
        assert(seq![s[0]] + s.skip(1).take(n) =~= s.take(1 + n));
    }
}

/// Completeness of the catalogue decoder for this packet.
#[verifier::rlimit(100)]
#[verifier::spinoff_prover]
proof fn lemma_test_server_complete_wrong_password(w: TestServerView, rest: Seq<u8>)
    requires
        <TestServer as Writeable>::wf_v(w),
        rest.len() == 0,
        w matches TestServerView::WrongPassword(_),
    ensures
        <TestServer as Readable>::dec_v(<TestServer as Writeable>::enc_v(w) + rest) == Some(
            (w, <TestServer as Writeable>::enc_v(w).len() as int),
        ),
{
    let s = <TestServer as Writeable>::enc_v(w) + rest;
    match w {
        TestServerView::WrongPassword(p) => {
            assert(s[0] == 0x3cu8);
            assert(s.skip(1) =~= <WrongPassword as Writeable>::enc_v(p) + rest);
            <WrongPassword as Readable>::lemma_dec_complete(p, rest);
        },
        _ => {},
    }
}

/// Soundness of the catalogue decoder on a frame whose id byte names
/// this packet.
#[verifier::rlimit(100)]
#[verifier::spinoff_prover]
proof fn lemma_test_server_sound_new_car_connection(s: Seq<u8>)
    requires
        s.len() >= 1,
        s[0] == 0x3e,
    ensures
        (match <TestServer as Readable>::dec_v(s) {
            Some((w, n)) => <TestServer as Writeable>::wf_v(w) && 0 <= n <= s.len()
                && <TestServer as Writeable>::enc_v(w) == s.take(n),
            None => true,
        }),
{
    <NewCarConnection as Readable>::lemma_dec_sound(s.skip(1));
    if let Some((p, n)) = <NewCarConnection as Readable>::dec_v(s.skip(1)) {
        assert(seq![s[0]] + s.skip(1).take(n) =~= s.take(1 + n));
    }
}

/// Completeness of the catalogue decoder for this packet.
#[verifier::rlimit(100)]
#[verifier::spinoff_prover]
proof fn lemma_test_server_complete_new_car_connection(w: TestServerView, rest: Seq<u8>)
    requires
        <TestServer as Writeable>::wf_v(w),
        rest.len() == 0,
        w matches TestServerView::NewCarConnection(_),
    ensures
        <TestServer as Readable>::dec_v(<TestServer as Writeable>::enc_v(w) + rest) == Some(
            (w, <TestServer as Writeable>::enc_v(w).len() as int),
        ),
{
    let s = <TestServer as Writeable>::enc_v(w) + rest;
    match w {
        TestServerView::NewCarConnection(p) => {
            assert(s[0] == 0x3eu8);
            assert(s.skip(1) =~= <NewCarConnection as Writeable>::enc_v(p) + rest);
            <NewCarConnection as Readable>::lemma_dec_complete(p, rest);
        },
        _ => {},
    }
}

/// Soundness of the catalogue decoder on a frame whose id byte names
/// this packet.
#[verifier::rlimit(100)]
#[verifier::spinoff_prover]
proof fn lemma_test_server_sound_car_list(s: Seq<u8>)
    requires
        s.len() >= 1,
        s[0] == 0x40,
    ensures
        (match <TestServer as Readable>::dec_v(s) {
            Some((w, n)) => <TestServer as Writeable>::wf_v(w) && 0 <= n <= s.len()
                && <TestServer as Writeable>::enc_v(w) == s.take(n),
            None => true,
        }),
{
    <CarList as Readable>::lemma_dec_sound(s.skip(1));
    if let Some((p, n)) = <CarList as Readable>::dec_v(s.skip(1)) {
        assert(seq![s[0]] + s.skip(1).take(n) =~= s.take(1 + n));
    }
}

/// Completeness of the catalogue decoder for this packet.
#[verifier::rlimit(100)]
#[verifier::spinoff_prover]
proof fn lemma_test_server_complete_car_list(w: TestServerView, rest: Seq<u8>)
    requires
        <TestServer as Writeable>::wf_v(w),
        rest.len() == 0,
        w matches TestServerView::CarList(_),
    ensures
        <TestServer as Readable>::dec_v(<TestServer as Writeable>::enc_v(w) + rest) == Some(
            (w, <TestServer as Writeable>::enc_v(w).len() as int),
        ),
{
    let s = <TestServer as Writeable>::enc_v(w) + rest;
    match w {
        TestServerView::CarList(p) => {
            assert(s[0] == 0x40u8);
            assert(s.skip(1) =~= <CarList as Writeable>::enc_v(p) + rest);
            <CarList as Readable>::lemma_dec_complete(p, rest);
        },
        _ => {},
    }
}

/// Soundness of the catalogue decoder on a frame whose id byte names
/// this packet.
#[verifier::rlimit(100)]
#[verifier::spinoff_prover]
proof fn lemma_test_server_sound_session_time_left(s: Seq<u8>)
    requires
        s.len() >= 1,
        s[0] == 0x41,
    ensures
        (match <TestServer as Readable>::dec_v(s) {
            Some((w, n)) => <TestServer as Writeable>::wf_v(w) && 0 <= n <= s.len()
                && <TestServer as Writeable>::enc_v(w) == s.take(n),
            None => true,
        }),
{
    <SessionTimeLeft as Readable>::lemma_dec_sound(s.skip(1));
    if let Some((p, n)) = <SessionTimeLeft as Readable>::dec_v(s.skip(1)) {
        assert(seq![s[0]] + s.skip(1).take(n) =~= s.take(1 + n));
    }
}

/// Completeness of the catalogue decoder for this packet.
#[verifier::rlimit(100)]
#[verifier::spinoff_prover]
proof fn lemma_test_server_complete_session_time_left(w: TestServerView, rest: Seq<u8>)
    requires
        <TestServer as Writeable>::wf_v(w),
        rest.len() == 0,
        w matches TestServerView::SessionTimeLeft(_),
    ensures
        <TestServer as Readable>::dec_v(<TestServer as Writeable>::enc_v(w) + rest) == Some(
            (w, <TestServer as Writeable>::enc_v(w).len() as int),
        ),
{
    let s = <TestServer as Writeable>::enc_v(w) + rest;
    match w {
        TestServerView::SessionTimeLeft(p) => {
            assert(s[0] == 0x41u8);
            assert(s.skip(1) =~= <SessionTimeLeft as Writeable>::enc_v(p) + rest);
            <SessionTimeLeft as Readable>::lemma_dec_complete(p, rest);
        },
        _ => {},
    }
}

/// Soundness of the catalogue decoder on a frame whose id byte names
/// this packet.
#[verifier::rlimit(100)]
#[verifier::spinoff_prover]
proof fn lemma_test_server_sound_wrong_protocol(s: Seq<u8>)
    requires
        s.len() >= 1,
        s[0] == 0x42,
    ensures
        (match <TestServer as Readable>::dec_v(s) {
            Some((w, n)) => <TestServer as Writeable>::wf_v(w) && 0 <= n <= s.len()
                && <TestServer as Writeable>::enc_v(w) == s.take(n),
            None => true,
        }),
{
    <WrongProtocol as Readable>::lemma_dec_sound(s.skip(1));
    if let Some((p, n)) = <WrongProtocol as Readable>::dec_v(s.skip(1)) {
        assert(seq![s[0]] + s.skip(1).take(n) =~= s.take(1 + n));
    }
}

/// Completeness of the catalogue decoder for this packet.
#[verifier::rlimit(100)]
#[verifier::spinoff_prover]
proof fn lemma_test_server_complete_wrong_protocol(w: TestServerView, rest: Seq<u8>)
    requires
        <TestServer as Writeable>::wf_v(w),
        rest.len() == 0,
        w matches TestServerView::WrongProtocol(_),
    ensures
        <TestServer as Readable>::dec_v(<TestServer as Writeable>::enc_v(w) + rest) == Some(
            (w, <TestServer as Writeable>::enc_v(w).len() as int),
        ),
{
    let s = <TestServer as Writeable>::enc_v(w) + rest;
    match w {
        TestServerView::WrongProtocol(p) => {
            assert(s[0] == 0x42u8);
            assert(s.skip(1) =~= <WrongProtocol as Writeable>::enc_v(p) + rest);
            <WrongProtocol as Readable>::lemma_dec_complete(p, rest);
        },
        _ => {},
    }
}

/// Soundness of the catalogue decoder on a frame whose id byte names
/// this packet.
#[verifier::rlimit(100)]
#[verifier::spinoff_prover]
proof fn lemma_test_server_sound_no_slots_for_car_model(s: Seq<u8>)
    requires
        s.len() >= 1,
        s[0] == 0x45,
    ensures
        (match <TestServer as Readable>::dec_v(s) {
            Some((w, n)) => <TestServer as Writeable>::wf_v(w) && 0 <= n <= s.len()
                && <TestServer as Writeable>::enc_v(w) == s.take(n),
            None => true,
        }),
{
    <NoSlotsForCarModel as Readable>::lemma_dec_sound(s.skip(1));
    if let Some((p, n)) = <NoSlotsForCarModel as Readable>::dec_v(s.skip(1)) {
        assert(seq![s[0]] + s.skip(1).take(n) =~= s.take(1 + n));
    }
}

/// Completeness of the catalogue decoder for this packet.
#[verifier::rlimit(100)]
#[verifier::spinoff_prover]
proof fn lemma_test_server_complete_no_slots_for_car_model(w: TestServerView, rest: Seq<u8>)
    requires
        <TestServer as Writeable>::wf_v(w),
        rest.len() == 0,
        w matches TestServerView::NoSlotsForCarModel(_),
    ensures
        <TestServer as Readable>::dec_v(<TestServer as Writeable>::enc_v(w) + rest) == Some(
            (w, <TestServer as Writeable>::enc_v(w).len() as int),
        ),
{
    let s = <TestServer as Writeable>::enc_v(w) + rest;
    match w {
        TestServerView::NoSlotsForCarModel(p) => {
            assert(s[0] == 0x45u8);
            assert(s.skip(1) =~= <NoSlotsForCarModel as Writeable>::enc_v(p) + rest);
            <NoSlotsForCarModel as Readable>::lemma_dec_complete(p, rest);
        },
        _ => {},
    }
}

/// Soundness of the catalogue decoder on a frame whose id byte names
/// this packet.
#[verifier::rlimit(100)]
#[verifier::spinoff_prover]
proof fn lemma_test_server_sound_chat(s: Seq<u8>)
    requires
        s.len() >= 1,
        s[0] == 0x47,
    ensures
        (match <TestServer as Readable>::dec_v(s) {
            Some((w, n)) => <TestServer as Writeable>::wf_v(w) && 0 <= n <= s.len()
                && <TestServer as Writeable>::enc_v(w) == s.take(n),
            None => true,
        }),
{
    <Chat as Readable>::lemma_dec_sound(s.skip(1));
    if let Some((p, n)) = <Chat as Readable>::dec_v(s.skip(1)) {
        assert(seq![s[0]] + s.skip(1).take(n) =~= s.take(1 + n));
    }
}

/// Completeness of the catalogue decoder for this packet.
#[verifier::rlimit(100)]
#[verifier::spinoff_prover]
proof fn lemma_test_server_complete_chat(w: TestServerView, rest: Seq<u8>)
    requires
        <TestServer as Writeable>::wf_v(w),
        rest.len() == 0,
        w matches TestServerView::Chat(_),
    ensures
        <TestServer as Readable>::dec_v(<TestServer as Writeable>::enc_v(w) + rest) == Some(
            (w, <TestServer as Writeable>::enc_v(w).len() as int),
        ),
{
    let s = <TestServer as Writeable>::enc_v(w) + rest;
    match w {
        TestServerView::Chat(p) => {
            assert(s[0] == 0x47u8);
            assert(s.skip(1) =~= <Chat as Writeable>::enc_v(p) + rest);
            <Chat as Readable>::lemma_dec_complete(p, rest);
        },
        _ => {},
    }
}

/// Soundness of the catalogue decoder on a frame whose id byte names
/// this packet.
#[verifier::rlimit(100)]
#[verifier::spinoff_prover]
proof fn lemma_test_server_sound_mega_packet(s: Seq<u8>)
    requires
        s.len() >= 1,
        s[0] == 0x48,
    ensures
        (match <TestServer as Readable>::dec_v(s) {
            Some((w, n)) => <TestServer as Writeable>::wf_v(w) && 0 <= n <= s.len()
                && <TestServer as Writeable>::enc_v(w) == s.take(n),
            None => true,
        }),
{
    <MegaPacket as Readable>::lemma_dec_sound(s.skip(1));
    if let Some((p, n)) = <MegaPacket as Readable>::dec_v(s.skip(1)) {
        assert(seq![s[0]] + s.skip(1).take(n) =~= s.take(1 + n));
    }
}

/// Completeness of the catalogue decoder for this packet.
#[verifier::rlimit(100)]
#[verifier::spinoff_prover]
proof fn lemma_test_server_complete_mega_packet(w: TestServerView, rest: Seq<u8>)
    requires
        <TestServer as Writeable>::wf_v(w),
        rest.len() == 0,
        w matches TestServerView::MegaPacket(_),
    ensures
        <TestServer as Readable>::dec_v(<TestServer as Writeable>::enc_v(w) + rest) == Some(
            (w, <TestServer as Writeable>::enc_v(w).len() as int),
        ),
{
    let s = <TestServer as Writeable>::enc_v(w) + rest;
    match w {
        TestServerView::MegaPacket(p) => {
            assert(s[0] == 0x48u8);
            assert(s.skip(1) =~= <MegaPacket as Writeable>::enc_v(p) + rest);
            <MegaPacket as Readable>::lemma_dec_complete(p, rest);
        },
        _ => {},
    }
}

/// Soundness of the catalogue decoder on a frame whose id byte names
/// this packet.
#[verifier::rlimit(100)]
#[verifier::spinoff_prover]
proof fn lemma_test_server_sound_lap_completed(s: Seq<u8>)
    requires
        s.len() >= 1,
        s[0] == 0x49,
    ensures
        (match <TestServer as Readable>::dec_v(s) {
            Some((w, n)) => <TestServer as Writeable>::wf_v(w) && 0 <= n <= s.len()
                && <TestServer as Writeable>::enc_v(w) == s.take(n),
            None => true,
        }),
{
    <LapCompleted as Readable>::lemma_dec_sound(s.skip(1));
    if let Some((p, n)) = <LapCompleted as Readable>::dec_v(s.skip(1)) {
        assert(seq![s[0]] + s.skip(1).take(n) =~= s.take(1 + n));
    }
}

/// Completeness of the catalogue decoder for this packet.
#[verifier::rlimit(100)]
#[verifier::spinoff_prover]
proof fn lemma_test_server_complete_lap_completed(w: TestServerView, rest: Seq<u8>)
    requires
        <TestServer as Writeable>::wf_v(w),
        rest.len() == 0,
        w matches TestServerView::LapCompleted(_),
    ensures
        <TestServer as Readable>::dec_v(<TestServer as Writeable>::enc_v(w) + rest) == Some(
            (w, <TestServer as Writeable>::enc_v(w).len() as int),
        ),
{
    let s = <TestServer as Writeable>::enc_v(w) + rest;
    match w {
        TestServerView::LapCompleted(p) => {
            assert(s[0] == 0x49u8);
            assert(s.skip(1) =~= <LapCompleted as Writeable>::enc_v(p) + rest);
            <LapCompleted as Readable>::lemma_dec_complete(p, rest);
        },
        _ => {},
    }
}

/// Soundness of the catalogue decoder on a frame whose id byte names
/// this packet.
#[verifier::rlimit(100)]
#[verifier::spinoff_prover]
proof fn lemma_test_server_sound_update_session(s: Seq<u8>)
    requires
        s.len() >= 1,
        s[0] == 0x4a,
    ensures
        (match <TestServer as Readable>::dec_v(s) {
            Some((w, n)) => <TestServer as Writeable>::wf_v(w) && 0 <= n <= s.len()
                && <TestServer as Writeable>::enc_v(w) == s.take(n),
            None => true,
        }),
{
    <UpdateSession as Readable>::lemma_dec_sound(s.skip(1));
    if let Some((p, n)) = <UpdateSession as Readable>::dec_v(s.skip(1)) {
        assert(seq![s[0]] + s.skip(1).take(n) =~= s.take(1 + n));
    }
}

/// Completeness of the catalogue decoder for this packet.
#[verifier::rlimit(100)]
#[verifier::spinoff_prover]
proof fn lemma_test_server_complete_update_session(w: TestServerView, rest: Seq<u8>)
    requires
        <TestServer as Writeable>::wf_v(w),
        rest.len() == 0,
        w matches TestServerView::UpdateSession(_),
    ensures
        <TestServer as Readable>::dec_v(<TestServer as Writeable>::enc_v(w) + rest) == Some(
            (w, <TestServer as Writeable>::enc_v(w).len() as int),
        ),
{
    let s = <TestServer as Writeable>::enc_v(w) + rest;
    match w {
        TestServerView::UpdateSession(p) => {
            assert(s[0] == 0x4au8);
            assert(s.skip(1) =~= <UpdateSession as Writeable>::enc_v(p) + rest);
            <UpdateSession as Readable>::lemma_dec_complete(p, rest);
        },
        _ => {},
    }
}

/// Soundness of the catalogue decoder on a frame whose id byte names
/// this packet.
#[verifier::rlimit(100)]
#[verifier::spinoff_prover]
proof fn lemma_test_server_sound_race_over(s: Seq<u8>)
    requires
        s.len() >= 1,
        s[0] == 0x4b,
    ensures
        (match <TestServer as Readable>::dec_v(s) {
            Some((w, n)) => <TestServer as Writeable>::wf_v(w) && 0 <= n <= s.len()
                && <TestServer as Writeable>::enc_v(w) == s.take(n),
            None => true,
        }),
{
    <RaceOver as Readable>::lemma_dec_sound(s.skip(1));
    if let Some((p, n)) = <RaceOver as Readable>::dec_v(s.skip(1)) {
        assert(seq![s[0]] + s.skip(1).take(n) =~= s.take(1 + n));
    }
}

/// Completeness of the catalogue decoder for this packet.
#[verifier::rlimit(100)]
#[verifier::spinoff_prover]
proof fn lemma_test_server_complete_race_over(w: TestServerView, rest: Seq<u8>)
    requires
        <TestServer as Writeable>::wf_v(w),
        rest.len() == 0,
        w matches TestServerView::RaceOver(_),
    ensures
        <TestServer as Readable>::dec_v(<TestServer as Writeable>::enc_v(w) + rest) == Some(
            (w, <TestServer as Writeable>::enc_v(w).len() as int),
        ),
{
    let s = <TestServer as Writeable>::enc_v(w) + rest;
    match w {
        TestServerView::RaceOver(p) => {
            assert(s[0] == 0x4bu8);
            assert(s.skip(1) =~= <RaceOver as Writeable>::enc_v(p) + rest);
            <RaceOver as Readable>::lemma_dec_complete(p, rest);
        },
        _ => {},
    }
}

/// Soundness of the catalogue decoder on a frame whose id byte names
/// this packet.
#[verifier::rlimit(100)]
#[verifier::spinoff_prover]
proof fn lemma_test_server_sound_client_disconnect(s: Seq<u8>)
    requires
        s.len() >= 1,
        s[0] == 0x4d,
    ensures
        (match <TestServer as Readable>::dec_v(s) {
            Some((w, n)) => <TestServer as Writeable>::wf_v(w) && 0 <= n <= s.len()
                && <TestServer as Writeable>::enc_v(w) == s.take(n),
            None => true,
        }),
{
    <ClientDisconnect as Readable>::lemma_dec_sound(s.skip(1));
    if let Some((p, n)) = <ClientDisconnect as Readable>::dec_v(s.skip(1)) {
        assert(seq![s[0]] + s.skip(1).take(n) =~= s.take(1 + n));
    }
}

/// Completeness of the catalogue decoder for this packet.
#[verifier::rlimit(100)]
#[verifier::spinoff_prover]
proof fn lemma_test_server_complete_client_disconnect(w: TestServerView, rest: Seq<u8>)
    requires
        <TestServer as Writeable>::wf_v(w),
        rest.len() == 0,
        w matches TestServerView::ClientDisconnect(_),
    ensures
        <TestServer as Readable>::dec_v(<TestServer as Writeable>::enc_v(w) + rest) == Some(
            (w, <TestServer as Writeable>::enc_v(w).len() as int),
        ),
{
    let s = <TestServer as Writeable>::enc_v(w) + rest;
    match w {
        TestServerView::ClientDisconnect(p) => {
            assert(s[0] == 0x4du8);
            assert(s.skip(1) =~= <ClientDisconnect as Writeable>::enc_v(p) + rest);
            <ClientDisconnect as Readable>::lemma_dec_complete(p, rest);
        },
        _ => {},
    }
}

/// Soundness of the catalogue decoder on a frame whose id byte names
/// this packet.
#[verifier::rlimit(100)]
#[verifier::spinoff_prover]
proof fn lemma_test_server_sound_update_upd_address(s: Seq<u8>)
    requires
        s.len() >= 1,
        s[0] == 0x4e,
    ensures
        (match <TestServer as Readable>::dec_v(s) {
            Some((w, n)) => <TestServer as Writeable>::wf_v(w) && 0 <= n <= s.len()
                && <TestServer as Writeable>::enc_v(w) == s.take(n),
            None => true,
        }),
{
    <UpdateUpdAddress as Readable>::lemma_dec_sound(s.skip(1));
    if let Some((p, n)) = <UpdateUpdAddress as Readable>::dec_v(s.skip(1)) {
        assert(seq![s[0]] + s.skip(1).take(n) =~= s.take(1 + n));
    }
}

/// Completeness of the catalogue decoder for this packet.
#[verifier::rlimit(100)]
#[verifier::spinoff_prover]
proof fn lemma_test_server_complete_update_upd_address(w: TestServerView, rest: Seq<u8>)
    requires
        <TestServer as Writeable>::wf_v(w),
        rest.len() == 0,
        w matches TestServerView::UpdateUpdAddress(_),
    ensures
        <TestServer as Readable>::dec_v(<TestServer as Writeable>::enc_v(w) + rest) == Some(
            (w, <TestServer as Writeable>::enc_v(w).len() as int),
        ),
{
    let s = <TestServer as Writeable>::enc_v(w) + rest;
    match w {
        TestServerView::UpdateUpdAddress(p) => {
            assert(s[0] == 0x4eu8);
            assert(s.skip(1) =~= <UpdateUpdAddress as Writeable>::enc_v(p) + rest);
            <UpdateUpdAddress as Readable>::lemma_dec_complete(p, rest);
        },
        _ => {},
    }
}

/// Soundness of the catalogue decoder on a frame whose id byte names
/// this packet.
#[verifier::rlimit(100)]
#[verifier::spinoff_prover]
proof fn lemma_test_server_sound_change_tire_compound(s: Seq<u8>)
    requires
        s.len() >= 1,
        s[0] == 0x50,
    ensures
        (match <TestServer as Readable>::dec_v(s) {
            Some((w, n)) => <TestServer as Writeable>::wf_v(w) && 0 <= n <= s.len()
                && <TestServer as Writeable>::enc_v(w) == s.take(n),
            None => true,
        }),
{
    <ChangeTireCompound as Readable>::lemma_dec_sound(s.skip(1));
    if let Some((p, n)) = <ChangeTireCompound as Readable>::dec_v(s.skip(1)) {
        assert(seq![s[0]] + s.skip(1).take(n) =~= s.take(1 + n));
    }
}

/// Completeness of the catalogue decoder for this packet.
#[verifier::rlimit(100)]
#[verifier::spinoff_prover]
proof fn lemma_test_server_complete_change_tire_compound(w: TestServerView, rest: Seq<u8>)
    requires
        <TestServer as Writeable>::wf_v(w),
        rest.len() == 0,
        w matches TestServerView::ChangeTireCompound(_),
    ensures
        <TestServer as Readable>::dec_v(<TestServer as Writeable>::enc_v(w) + rest) == Some(
            (w, <TestServer as Writeable>::enc_v(w).len() as int),
        ),
{
    let s = <TestServer as Writeable>::enc_v(w) + rest;
    match w {
        TestServerView::ChangeTireCompound(p) => {
            assert(s[0] == 0x50u8);
            assert(s.skip(1) =~= <ChangeTireCompound as Writeable>::enc_v(p) + rest);
            <ChangeTireCompound as Readable>::lemma_dec_complete(p, rest);
        },
        _ => {},
    }
}

/// Soundness of the catalogue decoder on a frame whose id byte names
/// this packet.
#[verifier::rlimit(100)]
#[verifier::spinoff_prover]
proof fn lemma_test_server_sound_welcome_message(s: Seq<u8>)
    requires
        s.len() >= 1,
        s[0] == 0x51,
    ensures
        (match <TestServer as Readable>::dec_v(s) {
            Some((w, n)) => <TestServer as Writeable>::wf_v(w) && 0 <= n <= s.len()
                && <TestServer as Writeable>::enc_v(w) == s.take(n),
            None => true,
        }),
{
    <WelcomeMessage as Readable>::lemma_dec_sound(s.skip(1));
    if let Some((p, n)) = <WelcomeMessage as Readable>::dec_v(s.skip(1)) {
        assert(seq![s[0]] + s.skip(1).take(n) =~= s.take(1 + n));
    }
}

/// Completeness of the catalogue decoder for this packet.
#[verifier::rlimit(100)]
#[verifier::spinoff_prover]
proof fn lemma_test_server_complete_welcome_message(w: TestServerView, rest: Seq<u8>)
    requires
        <TestServer as Writeable>::wf_v(w),
        rest.len() == 0,
        w matches TestServerView::WelcomeMessage(_),
    ensures
        <TestServer as Readable>::dec_v(<TestServer as Writeable>::enc_v(w) + rest) == Some(
            (w, <TestServer as Writeable>::enc_v(w).len() as int),
        ),
{
    let s = <TestServer as Writeable>::enc_v(w) + rest;
    match w {
        TestServerView::WelcomeMessage(p) => {
            assert(s[0] == 0x51u8);
            assert(s.skip(1) =~= <WelcomeMessage as Writeable>::enc_v(p) + rest);
            <WelcomeMessage as Readable>::lemma_dec_complete(p, rest);
        },
        _ => {},
    }
}

/// Soundness of the catalogue decoder on a frame whose id byte names
/// this packet.
#[verifier::rlimit(100)]
#[verifier::spinoff_prover]
proof fn lemma_test_server_sound_car_setup(s: Seq<u8>)
    requires
        s.len() >= 1,
        s[0] == 0x52,
    ensures
        (match <TestServer as Readable>::dec_v(s) {
            Some((w, n)) => <TestServer as Writeable>::wf_v(w) && 0 <= n <= s.len()
                && <TestServer as Writeable>::enc_v(w) == s.take(n),
            None => true,
        }),
{
    <CarSetup as Readable>::lemma_dec_sound(s.skip(1));
    if let Some((p, n)) = <CarSetup as Readable>::dec_v(s.skip(1)) {
        assert(seq![s[0]] + s.skip(1).take(n) =~= s.take(1 + n));
    }
}

/// Completeness of the catalogue decoder for this packet.
#[verifier::rlimit(100)]
#[verifier::spinoff_prover]
proof fn lemma_test_server_complete_car_setup(w: TestServerView, rest: Seq<u8>)
    requires
        <TestServer as Writeable>::wf_v(w),
        rest.len() == 0,
        w matches TestServerView::CarSetup(_),
    ensures
        <TestServer as Readable>::dec_v(<TestServer as Writeable>::enc_v(w) + rest) == Some(
            (w, <TestServer as Writeable>::enc_v(w).len() as int),
        ),
{
    let s = <TestServer as Writeable>::enc_v(w) + rest;
    match w {
        TestServerView::CarSetup(p) => {
            assert(s[0] == 0x52u8);
            assert(s.skip(1) =~= <CarSetup as Writeable>::enc_v(p) + rest);
            <CarSetup as Readable>::lemma_dec_complete(p, rest);
        },
        _ => {},
    }
}

/// Soundness of the catalogue decoder on a frame whose id byte names
/// this packet.
#[verifier::rlimit(100)]
#[verifier::spinoff_prover]
proof fn lemma_test_server_sound_d_r_s_zones(s: Seq<u8>)
    requires
        s.len() >= 1,
        s[0] == 0x53,
    ensures
        (match <TestServer as Readable>::dec_v(s) {
            Some((w, n)) => <TestServer as Writeable>::wf_v(w) && 0 <= n <= s.len()
                && <TestServer as Writeable>::enc_v(w) == s.take(n),
            None => true,
        }),
{
    <DRSZones as Readable>::lemma_dec_sound(s.skip(1));
    if let Some((p, n)) = <DRSZones as Readable>::dec_v(s.skip(1)) {
        assert(seq![s[0]] + s.skip(1).take(n) =~= s.take(1 + n));
    }
}

/// Completeness of the catalogue decoder for this packet.
#[verifier::rlimit(100)]
#[verifier::spinoff_prover]
proof fn lemma_test_server_complete_d_r_s_zones(w: TestServerView, rest: Seq<u8>)
    requires
        <TestServer as Writeable>::wf_v(w),
        rest.len() == 0,
        w matches TestServerView::DRSZones(_),
    ensures
        <TestServer as Readable>::dec_v(<TestServer as Writeable>::enc_v(w) + rest) == Some(
            (w, <TestServer as Writeable>::enc_v(w).len() as int),
        ),
{
    let s = <TestServer as Writeable>::enc_v(w) + rest;
    match w {
        TestServerView::DRSZones(p) => {
            assert(s[0] == 0x53u8);
            assert(s.skip(1) =~= <DRSZones as Writeable>::enc_v(p) + rest);
            <DRSZones as Readable>::lemma_dec_complete(p, rest);
        },
        _ => {},
    }
}

/// Soundness of the catalogue decoder on a frame whose id byte names
/// this packet.
#[verifier::rlimit(100)]
#[verifier::spinoff_prover]
proof fn lemma_test_server_sound_sun_angle(s: Seq<u8>)
    requires
        s.len() >= 1,
        s[0] == 0x54,
    ensures
        (match <TestServer as Readable>::dec_v(s) {
            Some((w, n)) => <TestServer as Writeable>::wf_v(w) && 0 <= n <= s.len()
                && <TestServer as Writeable>::enc_v(w) == s.take(n),
            None => true,
        }),
{
    <SunAngle as Readable>::lemma_dec_sound(s.skip(1));
    if let Some((p, n)) = <SunAngle as Readable>::dec_v(s.skip(1)) {
        assert(seq![s[0]] + s.skip(1).take(n) =~= s.take(1 + n));
    }
}

/// Completeness of the catalogue decoder for this packet.
#[verifier::rlimit(100)]
#[verifier::spinoff_prover]
proof fn lemma_test_server_complete_sun_angle(w: TestServerView, rest: Seq<u8>)
    requires
        <TestServer as Writeable>::wf_v(w),
        rest.len() == 0,
        w matches TestServerView::SunAngle(_),
    ensures
        <TestServer as Readable>::dec_v(<TestServer as Writeable>::enc_v(w) + rest) == Some(
            (w, <TestServer as Writeable>::enc_v(w).len() as int),
        ),
{
    let s = <TestServer as Writeable>::enc_v(w) + rest;
    match w {
        TestServerView::SunAngle(p) => {
            assert(s[0] == 0x54u8);
            assert(s.skip(1) =~= <SunAngle as Writeable>::enc_v(p) + rest);
            <SunAngle as Readable>::lemma_dec_complete(p, rest);
        },
        _ => {},
    }
}

/// Soundness of the catalogue decoder on a frame whose id byte names
/// this packet.
#[verifier::rlimit(100)]
#[verifier::spinoff_prover]
proof fn lemma_test_server_sound_damage_update(s: Seq<u8>)
    requires
        s.len() >= 1,
        s[0] == 0x56,
    ensures
        (match <TestServer as Readable>::dec_v(s) {
            Some((w, n)) => <TestServer as Writeable>::wf_v(w) && 0 <= n <= s.len()
                && <TestServer as Writeable>::enc_v(w) == s.take(n),
            None => true,
        }),
{
    <DamageUpdate as Readable>::lemma_dec_sound(s.skip(1));
    if let Some((p, n)) = <DamageUpdate as Readable>::dec_v(s.skip(1)) {
        assert(seq![s[0]] + s.skip(1).take(n) =~= s.take(1 + n));
    }
}

/// Completeness of the catalogue decoder for this packet.
#[verifier::rlimit(100)]
#[verifier::spinoff_prover]
proof fn lemma_test_server_complete_damage_update(w: TestServerView, rest: Seq<u8>)
    requires
        <TestServer as Writeable>::wf_v(w),
        rest.len() == 0,
        w matches TestServerView::DamageUpdate(_),
    ensures
        <TestServer as Readable>::dec_v(<TestServer as Writeable>::enc_v(w) + rest) == Some(
            (w, <TestServer as Writeable>::enc_v(w).len() as int),
        ),
{
    let s = <TestServer as Writeable>::enc_v(w) + rest;
    match w {
        TestServerView::DamageUpdate(p) => {
            assert(s[0] == 0x56u8);
            assert(s.skip(1) =~= <DamageUpdate as Writeable>::enc_v(p) + rest);
            <DamageUpdate as Readable>::lemma_dec_complete(p, rest);
        },
        _ => {},
    }
}

/// Soundness of the catalogue decoder on a frame whose id byte names
/// this packet.
#[verifier::rlimit(100)]
#[verifier::spinoff_prover]
proof fn lemma_test_server_sound_race_start(s: Seq<u8>)
    requires
        s.len() >= 1,
        s[0] == 0x57,
    ensures
        (match <TestServer as Readable>::dec_v(s) {
            Some((w, n)) => <TestServer as Writeable>::wf_v(w) && 0 <= n <= s.len()
                && <TestServer as Writeable>::enc_v(w) == s.take(n),
            None => true,
        }),
{
    <RaceStart as Readable>::lemma_dec_sound(s.skip(1));
    if let Some((p, n)) = <RaceStart as Readable>::dec_v(s.skip(1)) {
        assert(seq![s[0]] + s.skip(1).take(n) =~= s.take(1 + n));
    }
}

/// Completeness of the catalogue decoder for this packet.
#[verifier::rlimit(100)]
#[verifier::spinoff_prover]
proof fn lemma_test_server_complete_race_start(w: TestServerView, rest: Seq<u8>)
    requires
        <TestServer as Writeable>::wf_v(w),
        rest.len() == 0,
        w matches TestServerView::RaceStart(_),
    ensures
        <TestServer as Readable>::dec_v(<TestServer as Writeable>::enc_v(w) + rest) == Some(
            (w, <TestServer as Writeable>::enc_v(w).len() as int),
        ),
{
    let s = <TestServer as Writeable>::enc_v(w) + rest;
    match w {
        TestServerView::RaceStart(p) => {
            assert(s[0] == 0x57u8);
            assert(s.skip(1) =~= <RaceStart as Writeable>::enc_v(p) + rest);
            <RaceStart as Readable>::lemma_dec_complete(p, rest);
        },
        _ => {},
    }
}

/// Soundness of the catalogue decoder on a frame whose id byte names
/// this packet.
#[verifier::rlimit(100)]
#[verifier::spinoff_prover]
proof fn lemma_test_server_sound_sector_split(s: Seq<u8>)
    requires
        s.len() >= 1,
        s[0] == 0x58,
    ensures
        (match <TestServer as Readable>::dec_v(s) {
            Some((w, n)) => <TestServer as Writeable>::wf_v(w) && 0 <= n <= s.len()
                && <TestServer as Writeable>::enc_v(w) == s.take(n),
            None => true,
        }),
{
    <SectorSplit as Readable>::lemma_dec_sound(s.skip(1));
    if let Some((p, n)) = <SectorSplit as Readable>::dec_v(s.skip(1)) {
        assert(seq![s[0]] + s.skip(1).take(n) =~= s.take(1 + n));
    }
}

/// Completeness of the catalogue decoder for this packet.
#[verifier::rlimit(100)]
#[verifier::spinoff_prover]
proof fn lemma_test_server_complete_sector_split(w: TestServerView, rest: Seq<u8>)
    requires
        <TestServer as Writeable>::wf_v(w),
        rest.len() == 0,
        w matches TestServerView::SectorSplit(_),
    ensures
        <TestServer as Readable>::dec_v(<TestServer as Writeable>::enc_v(w) + rest) == Some(
            (w, <TestServer as Writeable>::enc_v(w).len() as int),
        ),
{
    let s = <TestServer as Writeable>::enc_v(w) + rest;
    match w {
        TestServerView::SectorSplit(p) => {
            assert(s[0] == 0x58u8);
            assert(s.skip(1) =~= <SectorSplit as Writeable>::enc_v(p) + rest);
            <SectorSplit as Readable>::lemma_dec_complete(p, rest);
        },
        _ => {},
    }
}

/// Soundness of the catalogue decoder on a frame whose id byte names
/// this packet.
#[verifier::rlimit(100)]
#[verifier::spinoff_prover]
proof fn lemma_test_server_sound_car_connected(s: Seq<u8>)
    requires
        s.len() >= 1,
        s[0] == 0x5a,
    ensures
        (match <TestServer as Readable>::dec_v(s) {
            Some((w, n)) => <TestServer as Writeable>::wf_v(w) && 0 <= n <= s.len()
                && <TestServer as Writeable>::enc_v(w) == s.take(n),
            None => true,
        }),
{
    <CarConnected as Readable>::lemma_dec_sound(s.skip(1));
    if let Some((p, n)) = <CarConnected as Readable>::dec_v(s.skip(1)) {
        assert(seq![s[0]] + s.skip(1).take(n) =~= s.take(1 + n));
    }
}

/// Completeness of the catalogue decoder for this packet.
#[verifier::rlimit(100)]
#[verifier::spinoff_prover]
proof fn lemma_test_server_complete_car_connected(w: TestServerView, rest: Seq<u8>)
    requires
        <TestServer as Writeable>::wf_v(w),
        rest.len() == 0,
        w matches TestServerView::CarConnected(_),
    ensures
        <TestServer as Readable>::dec_v(<TestServer as Writeable>::enc_v(w) + rest) == Some(
            (w, <TestServer as Writeable>::enc_v(w).len() as int),
        ),
{
    let s = <TestServer as Writeable>::enc_v(w) + rest;
    match w {
        TestServerView::CarConnected(p) => {
            assert(s[0] == 0x5au8);
            assert(s.skip(1) =~= <CarConnected as Writeable>::enc_v(p) + rest);
            <CarConnected as Readable>::lemma_dec_complete(p, rest);
        },
        _ => {},
    }
}

/// Soundness of the catalogue decoder on a frame whose id byte names
/// this packet.
#[verifier::rlimit(100)]
#[verifier::spinoff_prover]
proof fn lemma_test_server_sound_names(s: Seq<u8>)
    requires
        s.len() >= 1,
        s[0] == 0x5b,
    ensures
        (match <TestServer as Readable>::dec_v(s) {
            Some((w, n)) => <TestServer as Writeable>::wf_v(w) && 0 <= n <= s.len()
                && <TestServer as Writeable>::enc_v(w) == s.take(n),
            None => true,
        }),
{
    <Names as Readable>::lemma_dec_sound(s.skip(1));
    if let Some((p, n)) = <Names as Readable>::dec_v(s.skip(1)) {
        assert(seq![s[0]] + s.skip(1).take(n) =~= s.take(1 + n));
    }
}

/// Completeness of the catalogue decoder for this packet.
#[verifier::rlimit(100)]
#[verifier::spinoff_prover]
proof fn lemma_test_server_complete_names(w: TestServerView, rest: Seq<u8>)
    requires
        <TestServer as Writeable>::wf_v(w),
        rest.len() == 0,
        w matches TestServerView::Names(_),
    ensures
        <TestServer as Readable>::dec_v(<TestServer as Writeable>::enc_v(w) + rest) == Some(
            (w, <TestServer as Writeable>::enc_v(w).len() as int),
        ),
{
    let s = <TestServer as Writeable>::enc_v(w) + rest;
    match w {
        TestServerView::Names(p) => {
            assert(s[0] == 0x5bu8);
            assert(s.skip(1) =~= <Names as Writeable>::enc_v(p) + rest);
            <Names as Readable>::lemma_dec_complete(p, rest);
        },
        _ => {},
    }
}

/// Soundness of the catalogue decoder on a frame whose id byte names
/// this packet.
#[verifier::rlimit(100)]
#[verifier::spinoff_prover]
proof fn lemma_test_server_sound_next_session_vote(s: Seq<u8>)
    requires
        s.len() >= 1,
        s[0] == 0x64,
    ensures
        (match <TestServer as Readable>::dec_v(s) {
            Some((w, n)) => <TestServer as Writeable>::wf_v(w) && 0 <= n <= s.len()
                && <TestServer as Writeable>::enc_v(w) == s.take(n),
            None => true,
        }),
{
    <NextSessionVote as Readable>::lemma_dec_sound(s.skip(1));
    if let Some((p, n)) = <NextSessionVote as Readable>::dec_v(s.skip(1)) {
        assert(seq![s[0]] + s.skip(1).take(n) =~= s.take(1 + n));
    }
}

/// Completeness of the catalogue decoder for this packet.
#[verifier::rlimit(100)]
#[verifier::spinoff_prover]
proof fn lemma_test_server_complete_next_session_vote(w: TestServerView, rest: Seq<u8>)
    requires
        <TestServer as Writeable>::wf_v(w),
        rest.len() == 0,
        w matches TestServerView::NextSessionVote(_),
    ensures
        <TestServer as Readable>::dec_v(<TestServer as Writeable>::enc_v(w) + rest) == Some(
            (w, <TestServer as Writeable>::enc_v(w).len() as int),
        ),
{
    let s = <TestServer as Writeable>::enc_v(w) + rest;
    match w {
        TestServerView::NextSessionVote(p) => {
            assert(s[0] == 0x64u8);
            assert(s.skip(1) =~= <NextSessionVote as Writeable>::enc_v(p) + rest);
            <NextSessionVote as Readable>::lemma_dec_complete(p, rest);
        },
        _ => {},
    }
}

/// Soundness of the catalogue decoder on a frame whose id byte names
/// this packet.
#[verifier::rlimit(100)]
#[verifier::spinoff_prover]
proof fn lemma_test_server_sound_restart_session_vote(s: Seq<u8>)
    requires
        s.len() >= 1,
        s[0] == 0x65,
    ensures
        (match <TestServer as Readable>::dec_v(s) {
            Some((w, n)) => <TestServer as Writeable>::wf_v(w) && 0 <= n <= s.len()
                && <TestServer as Writeable>::enc_v(w) == s.take(n),
            None => true,
        }),
{
    <RestartSessionVote as Readable>::lemma_dec_sound(s.skip(1));
    if let Some((p, n)) = <RestartSessionVote as Readable>::dec_v(s.skip(1)) {
        assert(seq![s[0]] + s.skip(1).take(n) =~= s.take(1 + n));
    }
}

/// Completeness of the catalogue decoder for this packet.
#[verifier::rlimit(100)]
#[verifier::spinoff_prover]
proof fn lemma_test_server_complete_restart_session_vote(w: TestServerView, rest: Seq<u8>)
    requires
        <TestServer as Writeable>::wf_v(w),
        rest.len() == 0,
        w matches TestServerView::RestartSessionVote(_),
    ensures
        <TestServer as Readable>::dec_v(<TestServer as Writeable>::enc_v(w) + rest) == Some(
            (w, <TestServer as Writeable>::enc_v(w).len() as int),
        ),
{
    let s = <TestServer as Writeable>::enc_v(w) + rest;
    match w {
        TestServerView::RestartSessionVote(p) => {
            assert(s[0] == 0x65u8);
            assert(s.skip(1) =~= <RestartSessionVote as Writeable>::enc_v(p) + rest);
            <RestartSessionVote as Readable>::lemma_dec_complete(p, rest);
        },
        _ => {},
    }
}

/// Soundness of the catalogue decoder on a frame whose id byte names
/// this packet.
#[verifier::rlimit(100)]
#[verifier::spinoff_prover]
proof fn lemma_test_server_sound_kick_vote(s: Seq<u8>)
    requires
        s.len() >= 1,
        s[0] == 0x66,
    ensures
        (match <TestServer as Readable>::dec_v(s) {
            Some((w, n)) => <TestServer as Writeable>::wf_v(w) && 0 <= n <= s.len()
                && <TestServer as Writeable>::enc_v(w) == s.take(n),
            None => true,
        }),
{
    <KickVote as Readable>::lemma_dec_sound(s.skip(1));
    if let Some((p, n)) = <KickVote as Readable>::dec_v(s.skip(1)) {
        assert(seq![s[0]] + s.skip(1).take(n) =~= s.take(1 + n));
    }
}

/// Completeness of the catalogue decoder for this packet.
#[verifier::rlimit(100)]
#[verifier::spinoff_prover]
proof fn lemma_test_server_complete_kick_vote(w: TestServerView, rest: Seq<u8>)
    requires
        <TestServer as Writeable>::wf_v(w),
        rest.len() == 0,
        w matches TestServerView::KickVote(_),
    ensures
        <TestServer as Readable>::dec_v(<TestServer as Writeable>::enc_v(w) + rest) == Some(
            (w, <TestServer as Writeable>::enc_v(w).len() as int),
        ),
{
    let s = <TestServer as Writeable>::enc_v(w) + rest;
    match w {
        TestServerView::KickVote(p) => {
            assert(s[0] == 0x66u8);
            assert(s.skip(1) =~= <KickVote as Writeable>::enc_v(p) + rest);
            <KickVote as Readable>::lemma_dec_complete(p, rest);
        },
        _ => {},
    }
}

/// Soundness of the catalogue decoder on a frame whose id byte names
/// this packet.
#[verifier::rlimit(100)]
#[verifier::spinoff_prover]
proof fn lemma_test_server_sound_kick(s: Seq<u8>)
    requires
        s.len() >= 1,
        s[0] == 0x68,
    ensures
        (match <TestServer as Readable>::dec_v(s) {
            Some((w, n)) => <TestServer as Writeable>::wf_v(w) && 0 <= n <= s.len()
                && <TestServer as Writeable>::enc_v(w) == s.take(n),
            None => true,
        }),
{
    <Kick as Readable>::lemma_dec_sound(s.skip(1));
    if let Some((p, n)) = <Kick as Readable>::dec_v(s.skip(1)) {
        assert(seq![s[0]] + s.skip(1).take(n) =~= s.take(1 + n));
    }
}

/// Completeness of the catalogue decoder for this packet.
#[verifier::rlimit(100)]
#[verifier::spinoff_prover]
proof fn lemma_test_server_complete_kick(w: TestServerView, rest: Seq<u8>)
    requires
        <TestServer as Writeable>::wf_v(w),
        rest.len() == 0,
        w matches TestServerView::Kick(_),
    ensures
        <TestServer as Readable>::dec_v(<TestServer as Writeable>::enc_v(w) + rest) == Some(
            (w, <TestServer as Writeable>::enc_v(w).len() as int),
        ),
{
    let s = <TestServer as Writeable>::enc_v(w) + rest;
    match w {
        TestServerView::Kick(p) => {
            assert(s[0] == 0x68u8);
            assert(s.skip(1) =~= <Kick as Writeable>::enc_v(p) + rest);
            <Kick as Readable>::lemma_dec_complete(p, rest);
        },
        _ => {},
    }
}

/// Soundness of the catalogue decoder on a frame whose id byte names
/// this packet.
#[verifier::rlimit(100)]
#[verifier::spinoff_prover]
proof fn lemma_test_server_sound_session_closed(s: Seq<u8>)
    requires
        s.len() >= 1,
        s[0] == 0x6e,
    ensures
        (match <TestServer as Readable>::dec_v(s) {
            Some((w, n)) => <TestServer as Writeable>::wf_v(w) && 0 <= n <= s.len()
                && <TestServer as Writeable>::enc_v(w) == s.take(n),
            None => true,
        }),
{
    <SessionClosed as Readable>::lemma_dec_sound(s.skip(1));
    if let Some((p, n)) = <SessionClosed as Readable>::dec_v(s.skip(1)) {
        assert(seq![s[0]] + s.skip(1).take(n) =~= s.take(1 + n));
    }
}

/// Completeness of the catalogue decoder for this packet.
#[verifier::rlimit(100)]
#[verifier::spinoff_prover]
proof fn lemma_test_server_complete_session_closed(w: TestServerView, rest: Seq<u8>)
    requires
        <TestServer as Writeable>::wf_v(w),
        rest.len() == 0,
        w matches TestServerView::SessionClosed(_),
    ensures
        <TestServer as Readable>::dec_v(<TestServer as Writeable>::enc_v(w) + rest) == Some(
            (w, <TestServer as Writeable>::enc_v(w).len() as int),
        ),
{
    let s = <TestServer as Writeable>::enc_v(w) + rest;
    match w {
        TestServerView::SessionClosed(p) => {
            assert(s[0] == 0x6eu8);
            assert(s.skip(1) =~= <SessionClosed as Writeable>::enc_v(p) + rest);
            <SessionClosed as Readable>::lemma_dec_complete(p, rest);
        },
        _ => {},
    }
}

/// Soundness of the catalogue decoder on a frame whose id byte names
/// this packet.
#[verifier::rlimit(100)]
#[verifier::spinoff_prover]
proof fn lemma_test_server_sound_unknown(s: Seq<u8>)
    requires
        s.len() >= 1,
        s[0] == 0x6f,
    ensures
        (match <TestServer as Readable>::dec_v(s) {
            Some((w, n)) => <TestServer as Writeable>::wf_v(w) && 0 <= n <= s.len()
                && <TestServer as Writeable>::enc_v(w) == s.take(n),
            None => true,
        }),
{
    <Unknown as Readable>::lemma_dec_sound(s.skip(1));
    if let Some((p, n)) = <Unknown as Readable>::dec_v(s.skip(1)) {
        assert(seq![s[0]] + s.skip(1).take(n) =~= s.take(1 + n));
    }
}

/// Completeness of the catalogue decoder for this packet.
#[verifier::rlimit(100)]
#[verifier::spinoff_prover]
proof fn lemma_test_server_complete_unknown(w: TestServerView, rest: Seq<u8>)
    requires
        <TestServer as Writeable>::wf_v(w),
        rest.len() == 0,
        w matches TestServerView::Unknown(_),
    ensures
        <TestServer as Readable>::dec_v(<TestServer as Writeable>::enc_v(w) + rest) == Some(
            (w, <TestServer as Writeable>::enc_v(w).len() as int),
        ),
{
    let s = <TestServer as Writeable>::enc_v(w) + rest;
    match w {
        TestServerView::Unknown(p) => {
            assert(s[0] == 0x6fu8);
            assert(s.skip(1) =~= <Unknown as Writeable>::enc_v(p) + rest);
            <Unknown as Readable>::lemma_dec_complete(p, rest);
        },
        _ => {},
    }
}

/// Soundness of the catalogue decoder on a frame whose id byte names
/// this packet.
#[verifier::rlimit(100)]
#[verifier::spinoff_prover]
proof fn lemma_test_server_sound_bops(s: Seq<u8>)
    requires
        s.len() >= 1,
        s[0] == 0x70,
    ensures
        (match <TestServer as Readable>::dec_v(s) {
            Some((w, n)) => <TestServer as Writeable>::wf_v(w) && 0 <= n <= s.len()
                && <TestServer as Writeable>::enc_v(w) == s.take(n),
            None => true,
        }),
{
    <Bops as Readable>::lemma_dec_sound(s.skip(1));
    if let Some((p, n)) = <Bops as Readable>::dec_v(s.skip(1)) {
        assert(seq![s[0]] + s.skip(1).take(n) =~= s.take(1 + n));
    }
}

/// Completeness of the catalogue decoder for this packet.
#[verifier::rlimit(100)]
#[verifier::spinoff_prover]
proof fn lemma_test_server_complete_bops(w: TestServerView, rest: Seq<u8>)
    requires
        <TestServer as Writeable>::wf_v(w),
        rest.len() == 0,
        w matches TestServerView::Bops(_),
    ensures
        <TestServer as Readable>::dec_v(<TestServer as Writeable>::enc_v(w) + rest) == Some(
            (w, <TestServer as Writeable>::enc_v(w).len() as int),
        ),
{
    let s = <TestServer as Writeable>::enc_v(w) + rest;
    match w {
        TestServerView::Bops(p) => {
            assert(s[0] == 0x70u8);
            assert(s.skip(1) =~= <Bops as Writeable>::enc_v(p) + rest);
            <Bops as Readable>::lemma_dec_complete(p, rest);
        },
        _ => {},
    }
}

/// Soundness of the catalogue decoder on a frame whose id byte names
/// this packet.
#[verifier::rlimit(100)]
#[verifier::spinoff_prover]
proof fn lemma_test_server_sound_weather(s: Seq<u8>)
    requires
        s.len() >= 1,
        s[0] == 0x78,
    ensures
        (match <TestServer as Readable>::dec_v(s) {
            Some((w, n)) => <TestServer as Writeable>::wf_v(w) && 0 <= n <= s.len()
                && <TestServer as Writeable>::enc_v(w) == s.take(n),
            None => true,
        }),
{
    <Weather as Readable>::lemma_dec_sound(s.skip(1));
    if let Some((p, n)) = <Weather as Readable>::dec_v(s.skip(1)) {
        assert(seq![s[0]] + s.skip(1).take(n) =~= s.take(1 + n));
    }
}

/// Completeness of the catalogue decoder for this packet.
#[verifier::rlimit(100)]
#[verifier::spinoff_prover]
proof fn lemma_test_server_complete_weather(w: TestServerView, rest: Seq<u8>)
    requires
        <TestServer as Writeable>::wf_v(w),
        rest.len() == 0,
        w matches TestServerView::Weather(_),
    ensures
        <TestServer as Readable>::dec_v(<TestServer as Writeable>::enc_v(w) + rest) == Some(
            (w, <TestServer as Writeable>::enc_v(w).len() as int),
        ),
{
    let s = <TestServer as Writeable>::enc_v(w) + rest;
    match w {
        TestServerView::Weather(p) => {
            assert(s[0] == 0x78u8);
            assert(s.skip(1) =~= <Weather as Writeable>::enc_v(p) + rest);
            <Weather as Readable>::lemma_dec_complete(p, rest);
        },
        _ => {},
    }
}

/// Soundness of the catalogue decoder on a frame whose id byte names
/// this packet.
#[verifier::rlimit(100)]
#[verifier::spinoff_prover]
proof fn lemma_test_server_sound_ping_cache2(s: Seq<u8>)
    requires
        s.len() >= 1,
        s[0] == 0x82,
    ensures
        (match <TestServer as Readable>::dec_v(s) {
            Some((w, n)) => <TestServer as Writeable>::wf_v(w) && 0 <= n <= s.len()
                && <TestServer as Writeable>::enc_v(w) == s.take(n),
            None => true,
        }),
{
    <PingCache2 as Readable>::lemma_dec_sound(s.skip(1));
    if let Some((p, n)) = <PingCache2 as Readable>::dec_v(s.skip(1)) {
        assert(seq![s[0]] + s.skip(1).take(n) =~= s.take(1 + n));
    }
}

/// Completeness of the catalogue decoder for this packet.
#[verifier::rlimit(100)]
#[verifier::spinoff_prover]
proof fn lemma_test_server_complete_ping_cache2(w: TestServerView, rest: Seq<u8>)
    requires
        <TestServer as Writeable>::wf_v(w),
        rest.len() == 0,
        w matches TestServerView::PingCache2(_),
    ensures
        <TestServer as Readable>::dec_v(<TestServer as Writeable>::enc_v(w) + rest) == Some(
            (w, <TestServer as Writeable>::enc_v(w).len() as int),
        ),
{
    let s = <TestServer as Writeable>::enc_v(w) + rest;
    match w {
        TestServerView::PingCache2(p) => {
            assert(s[0] == 0x82u8);
            assert(s.skip(1) =~= <PingCache2 as Writeable>::enc_v(p) + rest);
            <PingCache2 as Readable>::lemma_dec_complete(p, rest);
        },
        _ => {},
    }
}

/// Soundness of the catalogue decoder on a frame whose id byte names
/// this packet.
#[verifier::rlimit(100)]
#[verifier::spinoff_prover]
proof fn lemma_test_server_sound_ping_cache(s: Seq<u8>)
    requires
        s.len() >= 1,
        s[0] == 0x8c,
    ensures
        (match <TestServer as Readable>::dec_v(s) {
            Some((w, n)) => <TestServer as Writeable>::wf_v(w) && 0 <= n <= s.len()
                && <TestServer as Writeable>::enc_v(w) == s.take(n),
            None => true,
        }),
{
    <PingCache as Readable>::lemma_dec_sound(s.skip(1));
    if let Some((p, n)) = <PingCache as Readable>::dec_v(s.skip(1)) {
        assert(seq![s[0]] + s.skip(1).take(n) =~= s.take(1 + n));
    }
}

/// Completeness of the catalogue decoder for this packet.
#[verifier::rlimit(100)]
#[verifier::spinoff_prover]
proof fn lemma_test_server_complete_ping_cache(w: TestServerView, rest: Seq<u8>)
    requires
        <TestServer as Writeable>::wf_v(w),
        rest.len() == 0,
        w matches TestServerView::PingCache(_),
    ensures
        <TestServer as Readable>::dec_v(<TestServer as Writeable>::enc_v(w) + rest) == Some(
            (w, <TestServer as Writeable>::enc_v(w).len() as int),
        ),
{
    let s = <TestServer as Writeable>::enc_v(w) + rest;
    match w {
        TestServerView::PingCache(p) => {
            assert(s[0] == 0x8cu8);
            assert(s.skip(1) =~= <PingCache as Writeable>::enc_v(p) + rest);
            <PingCache as Readable>::lemma_dec_complete(p, rest);
        },
        _ => {},
    }
}

/// Soundness of the catalogue decoder on a frame whose id byte names
/// this packet.
#[verifier::rlimit(100)]
#[verifier::spinoff_prover]
proof fn lemma_test_server_sound_lobby_check_message(s: Seq<u8>)
    requires
        s.len() >= 1,
        s[0] == 0xc8,
    ensures
        (match <TestServer as Readable>::dec_v(s) {
            Some((w, n)) => <TestServer as Writeable>::wf_v(w) && 0 <= n <= s.len()
                && <TestServer as Writeable>::enc_v(w) == s.take(n),
            None => true,
        }),
{
    <LobbyCheckMessage as Readable>::lemma_dec_sound(s.skip(1));
    if let Some((p, n)) = <LobbyCheckMessage as Readable>::dec_v(s.skip(1)) {
        assert(seq![s[0]] + s.skip(1).take(n) =~= s.take(1 + n));
    }
}

/// Completeness of the catalogue decoder for this packet.
#[verifier::rlimit(100)]
#[verifier::spinoff_prover]
proof fn lemma_test_server_complete_lobby_check_message(w: TestServerView, rest: Seq<u8>)
    requires
        <TestServer as Writeable>::wf_v(w),
        rest.len() == 0,
        w matches TestServerView::LobbyCheckMessage(_),
    ensures
        <TestServer as Readable>::dec_v(<TestServer as Writeable>::enc_v(w) + rest) == Some(
            (w, <TestServer as Writeable>::enc_v(w).len() as int),
        ),
{
    let s = <TestServer as Writeable>::enc_v(w) + rest;
    match w {
        TestServerView::LobbyCheckMessage(p) => {
            assert(s[0] == 0xc8u8);
            assert(s.skip(1) =~= <LobbyCheckMessage as Writeable>::enc_v(p) + rest);
            <LobbyCheckMessage as Readable>::lemma_dec_complete(p, rest);
        },
        _ => {},
    }
}

/// Soundness of the catalogue decoder on a frame whose id byte names
/// this packet.
#[verifier::rlimit(100)]
#[verifier::spinoff_prover]
proof fn lemma_test_server_sound_unknown4(s: Seq<u8>)
    requires
        s.len() >= 1,
        s[0] == 0xf8,
    ensures
        (match <TestServer as Readable>::dec_v(s) {
            Some((w, n)) => <TestServer as Writeable>::wf_v(w) && 0 <= n <= s.len()
                && <TestServer as Writeable>::enc_v(w) == s.take(n),
            None => true,
        }),
{
    <Unknown4 as Readable>::lemma_dec_sound(s.skip(1));
    if let Some((p, n)) = <Unknown4 as Readable>::dec_v(s.skip(1)) {
        assert(seq![s[0]] + s.skip(1).take(n) =~= s.take(1 + n));
    }
}

/// Completeness of the catalogue decoder for this packet.
#[verifier::rlimit(100)]
#[verifier::spinoff_prover]
proof fn lemma_test_server_complete_unknown4(w: TestServerView, rest: Seq<u8>)
    requires
        <TestServer as Writeable>::wf_v(w),
        rest.len() == 0,
        w matches TestServerView::Unknown4(_),
    ensures
        <TestServer as Readable>::dec_v(<TestServer as Writeable>::enc_v(w) + rest) == Some(
            (w, <TestServer as Writeable>::enc_v(w).len() as int),
        ),
{
    let s = <TestServer as Writeable>::enc_v(w) + rest;
    match w {
        TestServerView::Unknown4(p) => {
            assert(s[0] == 0xf8u8);
            assert(s.skip(1) =~= <Unknown4 as Writeable>::enc_v(p) + rest);
            <Unknown4 as Readable>::lemma_dec_complete(p, rest);
        },
        _ => {},
    }
}

/// Soundness of the catalogue decoder on a frame whose id byte names
/// this packet.
#[verifier::rlimit(100)]
#[verifier::spinoff_prover]
proof fn lemma_test_server_sound_ping(s: Seq<u8>)
    requires
        s.len() >= 1,
        s[0] == 0xf9,
    ensures
        (match <TestServer as Readable>::dec_v(s) {
            Some((w, n)) => <TestServer as Writeable>::wf_v(w) && 0 <= n <= s.len()
                && <TestServer as Writeable>::enc_v(w) == s.take(n),
            None => true,
        }),
{
    <Ping as Readable>::lemma_dec_sound(s.skip(1));
    if let Some((p, n)) = <Ping as Readable>::dec_v(s.skip(1)) {
        assert(seq![s[0]] + s.skip(1).take(n) =~= s.take(1 + n));
    }
}

/// Completeness of the catalogue decoder for this packet.
#[verifier::rlimit(100)]
#[verifier::spinoff_prover]
proof fn lemma_test_server_complete_ping(w: TestServerView, rest: Seq<u8>)
    requires
        <TestServer as Writeable>::wf_v(w),
        rest.len() == 0,
        w matches TestServerView::Ping(_),
    ensures
        <TestServer as Readable>::dec_v(<TestServer as Writeable>::enc_v(w) + rest) == Some(
            (w, <TestServer as Writeable>::enc_v(w).len() as int),
        ),
{
    let s = <TestServer as Writeable>::enc_v(w) + rest;
    match w {
        TestServerView::Ping(p) => {
            assert(s[0] == 0xf9u8);
            assert(s.skip(1) =~= <Ping as Writeable>::enc_v(p) + rest);
            <Ping as Readable>::lemma_dec_complete(p, rest);
        },
        _ => {},
    }
}

/// Reads the body of this packet; the id byte just before `*pos`
/// has already been read.
#[verifier::rlimit(100)]
#[verifier::spinoff_prover]
fn read_test_server_p2_p_count(buf: &[u8], pos: &mut usize) -> (r: Result<TestServer, Error>)
    requires
        1 <= *old(pos) <= buf@.len(),
        buf@[*old(pos) - 1] == 0x0d,
    ensures
        (match r {
            Ok(p) => {
                &&& <TestServer as Readable>::dec_v(buf@.skip(*old(pos) - 1)) == Some(
                    (p@, *final(pos) - *old(pos) + 1),
                )
                &&& *old(pos) <= *final(pos) <= buf@.len()
            },
            Err(_) => <TestServer as Readable>::dec_v(buf@.skip(*old(pos) - 1)) is None,
        }),
{
    let ghost s = buf@.skip(*old(pos) - 1);
    assert(s[0] == 0x0d);
    assert(buf@.skip(*pos as int) =~= s.skip(1));
    match <P2PCount as Readable>::read(buf, pos) {
        Ok(p) => Ok(TestServer::P2PCount(p)),
        Err(e) => Err(e),
    }
}

/// Reads the body of this packet; the id byte just before `*pos`
/// has already been read.
#[verifier::rlimit(100)]
#[verifier::spinoff_prover]
fn read_test_server_mandatory_pit(buf: &[u8], pos: &mut usize) -> (r: Result<TestServer, Error>)
    requires
        1 <= *old(pos) <= buf@.len(),
        buf@[*old(pos) - 1] == 0x0e,
    ensures
        (match r {
            Ok(p) => {
                &&& <TestServer as Readable>::dec_v(buf@.skip(*old(pos) - 1)) == Some(
                    (p@, *final(pos) - *old(pos) + 1),
                )
                &&& *old(pos) <= *final(pos) <= buf@.len()
            },
            Err(_) => <TestServer as Readable>::dec_v(buf@.skip(*old(pos) - 1)) is None,
        }),
{
    let ghost s = buf@.skip(*old(pos) - 1);
    assert(s[0] == 0x0e);
    assert(buf@.skip(*pos as int) =~= s.skip(1));
    match <MandatoryPit as Readable>::read(buf, pos) {
        Ok(p) => Ok(TestServer::MandatoryPit(p)),
        Err(e) => Err(e),
    }
}

/// Reads the body of this packet; the id byte just before `*pos`
/// has already been read.
#[verifier::rlimit(100)]
#[verifier::spinoff_prover]
fn read_test_server_client_first_update_udp(buf: &[u8], pos: &mut usize) -> (r: Result<TestServer, Error>)
    requires
        1 <= *old(pos) <= buf@.len(),
        buf@[*old(pos) - 1] == 0x3a,
    ensures
        (match r {
            Ok(p) => {
                &&& <TestServer as Readable>::dec_v(buf@.skip(*old(pos) - 1)) == Some(
                    (p@, *final(pos) - *old(pos) + 1),
                )
                &&& *old(pos) <= *final(pos) <= buf@.len()
            },
            Err(_) => <TestServer as Readable>::dec_v(buf@.skip(*old(pos) - 1)) is None,
        }),
{
    let ghost s = buf@.skip(*old(pos) - 1);
    assert(s[0] == 0x3a);
    assert(buf@.skip(*pos as int) =~= s.skip(1));
    match <ClientFirstUpdateUdp as Readable>::read(buf, pos) {
        Ok(p) => Ok(TestServer::ClientFirstUpdateUdp(p)),
        Err(e) => Err(e),
    }
}

/// Reads the body of this packet; the id byte just before `*pos`
/// has already been read.
#[verifier::rlimit(100)]
#[verifier::spinoff_prover]
fn read_test_server_banned(buf: &[u8], pos: &mut usize) -> (r: Result<TestServer, Error>)
    requires
        1 <= *old(pos) <= buf@.len(),
        buf@[*old(pos) - 1] == 0x3b,
    ensures
        (match r {
            Ok(p) => {
                &&& <TestServer as Readable>::dec_v(buf@.skip(*old(pos) - 1)) == Some(
                    (p@, *final(pos) - *old(pos) + 1),
                )
                &&& *old(pos) <= *final(pos) <= buf@.len()
            },
            Err(_) => <TestServer as Readable>::dec_v(buf@.skip(*old(pos) - 1)) is None,
        }),
{
    let ghost s = buf@.skip(*old(pos) - 1);
    assert(s[0] == 0x3b);
    assert(buf@.skip(*pos as int) =~= s.skip(1));
    match <Banned as Readable>::read(buf, pos) {
        Ok(p) => Ok(TestServer::Banned(p)),
        Err(e) => Err(e),
    }
}

/// Reads the body of this packet; the id byte just before `*pos`
/// has already been read.
#[verifier::rlimit(100)]
#[verifier::spinoff_prover]
fn read_test_server_wrong_password(buf: &[u8], pos: &mut usize) -> (r: Result<TestServer, Error>)
    requires
        1 <= *old(pos) <= buf@.len(),
        buf@[*old(pos) - 1] == 0x3c,
    ensures
        (match r {
            Ok(p) => {
                &&& <TestServer as Readable>::dec_v(buf@.skip(*old(pos) - 1)) == Some(
                    (p@, *final(pos) - *old(pos) + 1),
                )
                &&& *old(pos) <= *final(pos) <= buf@.len()
            },
            Err(_) => <TestServer as Readable>::dec_v(buf@.skip(*old(pos) - 1)) is None,
        }),
{
    let ghost s = buf@.skip(*old(pos) - 1);
    assert(s[0] == 0x3c);
    assert(buf@.skip(*pos as int) =~= s.skip(1));
    match <WrongPassword as Readable>::read(buf, pos) {
        Ok(p) => Ok(TestServer::WrongPassword(p)),
        Err(e) => Err(e),
    }
}

/// Reads the body of this packet; the id byte just before `*pos`
/// has already been read.
#[verifier::rlimit(100)]
#[verifier::spinoff_prover]
fn read_test_server_new_car_connection(buf: &[u8], pos: &mut usize) -> (r: Result<TestServer, Error>)
    requires
        1 <= *old(pos) <= buf@.len(),
        buf@[*old(pos) - 1] == 0x3e,
    ensures
        (match r {
            Ok(p) => {
                &&& <TestServer as Readable>::dec_v(buf@.skip(*old(pos) - 1)) == Some(
                    (p@, *final(pos) - *old(pos) + 1),
                )
                &&& *old(pos) <= *final(pos) <= buf@.len()
            },
            Err(_) => <TestServer as Readable>::dec_v(buf@.skip(*old(pos) - 1)) is None,
        }),
{
    let ghost s = buf@.skip(*old(pos) - 1);
    assert(s[0] == 0x3e);
    assert(buf@.skip(*pos as int) =~= s.skip(1));
    match <NewCarConnection as Readable>::read(buf, pos) {
        Ok(p) => Ok(TestServer::NewCarConnection(p)),
        Err(e) => Err(e),
    }
}

/// Reads the body of this packet; the id byte just before `*pos`
/// has already been read.
#[verifier::rlimit(100)]
#[verifier::spinoff_prover]
fn read_test_server_car_list(buf: &[u8], pos: &mut usize) -> (r: Result<TestServer, Error>)
    requires
        1 <= *old(pos) <= buf@.len(),
        buf@[*old(pos) - 1] == 0x40,
    ensures
        (match r {
            Ok(p) => {
                &&& <TestServer as Readable>::dec_v(buf@.skip(*old(pos) - 1)) == Some(
                    (p@, *final(pos) - *old(pos) + 1),
                )
                &&& *old(pos) <= *final(pos) <= buf@.len()
            },
            Err(_) => <TestServer as Readable>::dec_v(buf@.skip(*old(pos) - 1)) is None,
        }),
{
    let ghost s = buf@.skip(*old(pos) - 1);
    assert(s[0] == 0x40);
    assert(buf@.skip(*pos as int) =~= s.skip(1));
    match <CarList as Readable>::read(buf, pos) {
        Ok(p) => Ok(TestServer::CarList(p)),
        Err(e) => Err(e),
    }
}

/// Reads the body of this packet; the id byte just before `*pos`
/// has already been read.
#[verifier::rlimit(100)]
#[verifier::spinoff_prover]
fn read_test_server_session_time_left(buf: &[u8], pos: &mut usize) -> (r: Result<TestServer, Error>)
    requires
        1 <= *old(pos) <= buf@.len(),
        buf@[*old(pos) - 1] == 0x41,
    ensures
        (match r {
            Ok(p) => {
                &&& <TestServer as Readable>::dec_v(buf@.skip(*old(pos) - 1)) == Some(
                    (p@, *final(pos) - *old(pos) + 1),
                )
                &&& *old(pos) <= *final(pos) <= buf@.len()
            },
            Err(_) => <TestServer as Readable>::dec_v(buf@.skip(*old(pos) - 1)) is None,
        }),
{
    let ghost s = buf@.skip(*old(pos) - 1);
    assert(s[0] == 0x41);
    assert(buf@.skip(*pos as int) =~= s.skip(1));
    match <SessionTimeLeft as Readable>::read(buf, pos) {
        Ok(p) => Ok(TestServer::SessionTimeLeft(p)),
        Err(e) => Err(e),
    }
}

/// Reads the body of this packet; the id byte just before `*pos`
/// has already been read.
#[verifier::rlimit(100)]
#[verifier::spinoff_prover]
fn read_test_server_wrong_protocol(buf: &[u8], pos: &mut usize) -> (r: Result<TestServer, Error>)
    requires
        1 <= *old(pos) <= buf@.len(),
        buf@[*old(pos) - 1] == 0x42,
    ensures
        (match r {
            Ok(p) => {
                &&& <TestServer as Readable>::dec_v(buf@.skip(*old(pos) - 1)) == Some(
                    (p@, *final(pos) - *old(pos) + 1),
                )
                &&& *old(pos) <= *final(pos) <= buf@.len()
            },
            Err(_) => <TestServer as Readable>::dec_v(buf@.skip(*old(pos) - 1)) is None,
        }),
{
    let ghost s = buf@.skip(*old(pos) - 1);
    assert(s[0] == 0x42);
    assert(buf@.skip(*pos as int) =~= s.skip(1));
    match <WrongProtocol as Readable>::read(buf, pos) {
        Ok(p) => Ok(TestServer::WrongProtocol(p)),
        Err(e) => Err(e),
    }
}

/// Reads the body of this packet; the id byte just before `*pos`
/// has already been read.
#[verifier::rlimit(100)]
#[verifier::spinoff_prover]
fn read_test_server_no_slots_for_car_model(buf: &[u8], pos: &mut usize) -> (r: Result<TestServer, Error>)
    requires
        1 <= *old(pos) <= buf@.len(),
        buf@[*old(pos) - 1] == 0x45,
    ensures
        (match r {
            Ok(p) => {
                &&& <TestServer as Readable>::dec_v(buf@.skip(*old(pos) - 1)) == Some(
                    (p@, *final(pos) - *old(pos) + 1),
                )
                &&& *old(pos) <= *final(pos) <= buf@.len()
            },
            Err(_) => <TestServer as Readable>::dec_v(buf@.skip(*old(pos) - 1)) is None,
        }),
{
    let ghost s = buf@.skip(*old(pos) - 1);
    assert(s[0] == 0x45);
    assert(buf@.skip(*pos as int) =~= s.skip(1));
    match <NoSlotsForCarModel as Readable>::read(buf, pos) {
        Ok(p) => Ok(TestServer::NoSlotsForCarModel(p)),
        Err(e) => Err(e),
    }
}

/// Reads the body of this packet; the id byte just before `*pos`
/// has already been read.
#[verifier::rlimit(100)]
#[verifier::spinoff_prover]
fn read_test_server_chat(buf: &[u8], pos: &mut usize) -> (r: Result<TestServer, Error>)
    requires
        1 <= *old(pos) <= buf@.len(),
        buf@[*old(pos) - 1] == 0x47,
    ensures
        (match r {
            Ok(p) => {
                &&& <TestServer as Readable>::dec_v(buf@.skip(*old(pos) - 1)) == Some(
                    (p@, *final(pos) - *old(pos) + 1),
                )
                &&& *old(pos) <= *final(pos) <= buf@.len()
            },
            Err(_) => <TestServer as Readable>::dec_v(buf@.skip(*old(pos) - 1)) is None,
        }),
{
    let ghost s = buf@.skip(*old(pos) - 1);
    assert(s[0] == 0x47);
    assert(buf@.skip(*pos as int) =~= s.skip(1));
    match <Chat as Readable>::read(buf, pos) {
        Ok(p) => Ok(TestServer::Chat(p)),
        Err(e) => Err(e),
    }
}

/// Reads the body of this packet; the id byte just before `*pos`
/// has already been read.
#[verifier::rlimit(100)]
#[verifier::spinoff_prover]
fn read_test_server_mega_packet(buf: &[u8], pos: &mut usize) -> (r: Result<TestServer, Error>)
    requires
        1 <= *old(pos) <= buf@.len(),
        buf@[*old(pos) - 1] == 0x48,
    ensures
        (match r {
            Ok(p) => {
                &&& <TestServer as Readable>::dec_v(buf@.skip(*old(pos) - 1)) == Some(
                    (p@, *final(pos) - *old(pos) + 1),
                )
                &&& *old(pos) <= *final(pos) <= buf@.len()
            },
            Err(_) => <TestServer as Readable>::dec_v(buf@.skip(*old(pos) - 1)) is None,
        }),
{
    let ghost s = buf@.skip(*old(pos) - 1);
    assert(s[0] == 0x48);
    assert(buf@.skip(*pos as int) =~= s.skip(1));
    match <MegaPacket as Readable>::read(buf, pos) {
        Ok(p) => Ok(TestServer::MegaPacket(p)),
        Err(e) => Err(e),
    }
}

/// Reads the body of this packet; the id byte just before `*pos`
/// has already been read.
#[verifier::rlimit(100)]
#[verifier::spinoff_prover]
fn read_test_server_lap_completed(buf: &[u8], pos: &mut usize) -> (r: Result<TestServer, Error>)
    requires
        1 <= *old(pos) <= buf@.len(),
        buf@[*old(pos) - 1] == 0x49,
    ensures
        (match r {
            Ok(p) => {
                &&& <TestServer as Readable>::dec_v(buf@.skip(*old(pos) - 1)) == Some(
                    (p@, *final(pos) - *old(pos) + 1),
                )
                &&& *old(pos) <= *final(pos) <= buf@.len()
            },
            Err(_) => <TestServer as Readable>::dec_v(buf@.skip(*old(pos) - 1)) is None,
        }),
{
    let ghost s = buf@.skip(*old(pos) - 1);
    assert(s[0] == 0x49);
    assert(buf@.skip(*pos as int) =~= s.skip(1));
    match <LapCompleted as Readable>::read(buf, pos) {
        Ok(p) => Ok(TestServer::LapCompleted(p)),
        Err(e) => Err(e),
    }
}

/// Reads the body of this packet; the id byte just before `*pos`
/// has already been read.
#[verifier::rlimit(100)]
#[verifier::spinoff_prover]
fn read_test_server_update_session(buf: &[u8], pos: &mut usize) -> (r: Result<TestServer, Error>)
    requires
        1 <= *old(pos) <= buf@.len(),
        buf@[*old(pos) - 1] == 0x4a,
    ensures
        (match r {
            Ok(p) => {
                &&& <TestServer as Readable>::dec_v(buf@.skip(*old(pos) - 1)) == Some(
                    (p@, *final(pos) - *old(pos) + 1),
                )
                &&& *old(pos) <= *final(pos) <= buf@.len()
            },
            Err(_) => <TestServer as Readable>::dec_v(buf@.skip(*old(pos) - 1)) is None,
        }),
{
    let ghost s = buf@.skip(*old(pos) - 1);
    assert(s[0] == 0x4a);
    assert(buf@.skip(*pos as int) =~= s.skip(1));
    match <UpdateSession as Readable>::read(buf, pos) {
        Ok(p) => Ok(TestServer::UpdateSession(p)),
        Err(e) => Err(e),
    }
}

/// Reads the body of this packet; the id byte just before `*pos`
/// has already been read.
#[verifier::rlimit(100)]
#[verifier::spinoff_prover]
fn read_test_server_race_over(buf: &[u8], pos: &mut usize) -> (r: Result<TestServer, Error>)
    requires
        1 <= *old(pos) <= buf@.len(),
        buf@[*old(pos) - 1] == 0x4b,
    ensures
        (match r {
            Ok(p) => {
                &&& <TestServer as Readable>::dec_v(buf@.skip(*old(pos) - 1)) == Some(
                    (p@, *final(pos) - *old(pos) + 1),
                )
                &&& *old(pos) <= *final(pos) <= buf@.len()
            },
            Err(_) => <TestServer as Readable>::dec_v(buf@.skip(*old(pos) - 1)) is None,
        }),
{
    let ghost s = buf@.skip(*old(pos) - 1);
    assert(s[0] == 0x4b);
    assert(buf@.skip(*pos as int) =~= s.skip(1));
    match <RaceOver as Readable>::read(buf, pos) {
        Ok(p) => Ok(TestServer::RaceOver(p)),
        Err(e) => Err(e),
    }
}

/// Reads the body of this packet; the id byte just before `*pos`
/// has already been read.
#[verifier::rlimit(100)]
#[verifier::spinoff_prover]
fn read_test_server_client_disconnect(buf: &[u8], pos: &mut usize) -> (r: Result<TestServer, Error>)
    requires
        1 <= *old(pos) <= buf@.len(),
        buf@[*old(pos) - 1] == 0x4d,
    ensures
        (match r {
            Ok(p) => {
                &&& <TestServer as Readable>::dec_v(buf@.skip(*old(pos) - 1)) == Some(
                    (p@, *final(pos) - *old(pos) + 1),
                )
                &&& *old(pos) <= *final(pos) <= buf@.len()
            },
            Err(_) => <TestServer as Readable>::dec_v(buf@.skip(*old(pos) - 1)) is None,
        }),
{
    let ghost s = buf@.skip(*old(pos) - 1);
    assert(s[0] == 0x4d);
    assert(buf@.skip(*pos as int) =~= s.skip(1));
    match <ClientDisconnect as Readable>::read(buf, pos) {
        Ok(p) => Ok(TestServer::ClientDisconnect(p)),
        Err(e) => Err(e),
    }
}

/// Reads the body of this packet; the id byte just before `*pos`
/// has already been read.
#[verifier::rlimit(100)]
#[verifier::spinoff_prover]
fn read_test_server_update_upd_address(buf: &[u8], pos: &mut usize) -> (r: Result<TestServer, Error>)
    requires
        1 <= *old(pos) <= buf@.len(),
        buf@[*old(pos) - 1] == 0x4e,
    ensures
        (match r {
            Ok(p) => {
                &&& <TestServer as Readable>::dec_v(buf@.skip(*old(pos) - 1)) == Some(
                    (p@, *final(pos) - *old(pos) + 1),
                )
                &&& *old(pos) <= *final(pos) <= buf@.len()
            },
            Err(_) => <TestServer as Readable>::dec_v(buf@.skip(*old(pos) - 1)) is None,
        }),
{
    let ghost s = buf@.skip(*old(pos) - 1);
    assert(s[0] == 0x4e);
    assert(buf@.skip(*pos as int) =~= s.skip(1));
    match <UpdateUpdAddress as Readable>::read(buf, pos) {
        Ok(p) => Ok(TestServer::UpdateUpdAddress(p)),
        Err(e) => Err(e),
    }
}

/// Reads the body of this packet; the id byte just before `*pos`
/// has already been read.
#[verifier::rlimit(100)]
#[verifier::spinoff_prover]
fn read_test_server_change_tire_compound(buf: &[u8], pos: &mut usize) -> (r: Result<TestServer, Error>)
    requires
        1 <= *old(pos) <= buf@.len(),
        buf@[*old(pos) - 1] == 0x50,
    ensures
        (match r {
            Ok(p) => {
                &&& <TestServer as Readable>::dec_v(buf@.skip(*old(pos) - 1)) == Some(
                    (p@, *final(pos) - *old(pos) + 1),
                )
                &&& *old(pos) <= *final(pos) <= buf@.len()
            },
            Err(_) => <TestServer as Readable>::dec_v(buf@.skip(*old(pos) - 1)) is None,
        }),
{
    let ghost s = buf@.skip(*old(pos) - 1);
    assert(s[0] == 0x50);
    assert(buf@.skip(*pos as int) =~= s.skip(1));
    match <ChangeTireCompound as Readable>::read(buf, pos) {
        Ok(p) => Ok(TestServer::ChangeTireCompound(p)),
        Err(e) => Err(e),
    }
}

/// Reads the body of this packet; the id byte just before `*pos`
/// has already been read.
#[verifier::rlimit(100)]
#[verifier::spinoff_prover]
fn read_test_server_welcome_message(buf: &[u8], pos: &mut usize) -> (r: Result<TestServer, Error>)
    requires
        1 <= *old(pos) <= buf@.len(),
        buf@[*old(pos) - 1] == 0x51,
    ensures
        (match r {
            Ok(p) => {
                &&& <TestServer as Readable>::dec_v(buf@.skip(*old(pos) - 1)) == Some(
                    (p@, *final(pos) - *old(pos) + 1),
                )
                &&& *old(pos) <= *final(pos) <= buf@.len()
            },
            Err(_) => <TestServer as Readable>::dec_v(buf@.skip(*old(pos) - 1)) is None,
        }),
{
    let ghost s = buf@.skip(*old(pos) - 1);
    assert(s[0] == 0x51);
    assert(buf@.skip(*pos as int) =~= s.skip(1));
    match <WelcomeMessage as Readable>::read(buf, pos) {
        Ok(p) => Ok(TestServer::WelcomeMessage(p)),
        Err(e) => Err(e),
    }
}

/// Reads the body of this packet; the id byte just before `*pos`
/// has already been read.
#[verifier::rlimit(100)]
#[verifier::spinoff_prover]
fn read_test_server_car_setup(buf: &[u8], pos: &mut usize) -> (r: Result<TestServer, Error>)
    requires
        1 <= *old(pos) <= buf@.len(),
        buf@[*old(pos) - 1] == 0x52,
    ensures
        (match r {
            Ok(p) => {
                &&& <TestServer as Readable>::dec_v(buf@.skip(*old(pos) - 1)) == Some(
                    (p@, *final(pos) - *old(pos) + 1),
                )
                &&& *old(pos) <= *final(pos) <= buf@.len()
            },
            Err(_) => <TestServer as Readable>::dec_v(buf@.skip(*old(pos) - 1)) is None,
        }),
{
    let ghost s = buf@.skip(*old(pos) - 1);
    assert(s[0] == 0x52);
    assert(buf@.skip(*pos as int) =~= s.skip(1));
    match <CarSetup as Readable>::read(buf, pos) {
        Ok(p) => Ok(TestServer::CarSetup(p)),
        Err(e) => Err(e),
    }
}

/// Reads the body of this packet; the id byte just before `*pos`
/// has already been read.
#[verifier::rlimit(100)]
#[verifier::spinoff_prover]
fn read_test_server_d_r_s_zones(buf: &[u8], pos: &mut usize) -> (r: Result<TestServer, Error>)
    requires
        1 <= *old(pos) <= buf@.len(),
        buf@[*old(pos) - 1] == 0x53,
    ensures
        (match r {
            Ok(p) => {
                &&& <TestServer as Readable>::dec_v(buf@.skip(*old(pos) - 1)) == Some(
                    (p@, *final(pos) - *old(pos) + 1),
                )
                &&& *old(pos) <= *final(pos) <= buf@.len()
            },
            Err(_) => <TestServer as Readable>::dec_v(buf@.skip(*old(pos) - 1)) is None,
        }),
{
    let ghost s = buf@.skip(*old(pos) - 1);
    assert(s[0] == 0x53);
    assert(buf@.skip(*pos as int) =~= s.skip(1));
    match <DRSZones as Readable>::read(buf, pos) {
        Ok(p) => Ok(TestServer::DRSZones(p)),
        Err(e) => Err(e),
    }
}

/// Reads the body of this packet; the id byte just before `*pos`
/// has already been read.
#[verifier::rlimit(100)]
#[verifier::spinoff_prover]
fn read_test_server_sun_angle(buf: &[u8], pos: &mut usize) -> (r: Result<TestServer, Error>)
    requires
        1 <= *old(pos) <= buf@.len(),
        buf@[*old(pos) - 1] == 0x54,
    ensures
        (match r {
            Ok(p) => {
                &&& <TestServer as Readable>::dec_v(buf@.skip(*old(pos) - 1)) == Some(
                    (p@, *final(pos) - *old(pos) + 1),
                )
                &&& *old(pos) <= *final(pos) <= buf@.len()
            },
            Err(_) => <TestServer as Readable>::dec_v(buf@.skip(*old(pos) - 1)) is None,
        }),
{
    let ghost s = buf@.skip(*old(pos) - 1);
    assert(s[0] == 0x54);
    assert(buf@.skip(*pos as int) =~= s.skip(1));
    match <SunAngle as Readable>::read(buf, pos) {
        Ok(p) => Ok(TestServer::SunAngle(p)),
        Err(e) => Err(e),
    }
}

/// Reads the body of this packet; the id byte just before `*pos`
/// has already been read.
#[verifier::rlimit(100)]
#[verifier::spinoff_prover]
fn read_test_server_damage_update(buf: &[u8], pos: &mut usize) -> (r: Result<TestServer, Error>)
    requires
        1 <= *old(pos) <= buf@.len(),
        buf@[*old(pos) - 1] == 0x56,
    ensures
        (match r {
            Ok(p) => {
                &&& <TestServer as Readable>::dec_v(buf@.skip(*old(pos) - 1)) == Some(
                    (p@, *final(pos) - *old(pos) + 1),
                )
                &&& *old(pos) <= *final(pos) <= buf@.len()
            },
            Err(_) => <TestServer as Readable>::dec_v(buf@.skip(*old(pos) - 1)) is None,
        }),
{
    let ghost s = buf@.skip(*old(pos) - 1);
    assert(s[0] == 0x56);
    assert(buf@.skip(*pos as int) =~= s.skip(1));
    match <DamageUpdate as Readable>::read(buf, pos) {
        Ok(p) => Ok(TestServer::DamageUpdate(p)),
        Err(e) => Err(e),
    }
}

/// Reads the body of this packet; the id byte just before `*pos`
/// has already been read.
#[verifier::rlimit(100)]
#[verifier::spinoff_prover]
fn read_test_server_race_start(buf: &[u8], pos: &mut usize) -> (r: Result<TestServer, Error>)
    requires
        1 <= *old(pos) <= buf@.len(),
        buf@[*old(pos) - 1] == 0x57,
    ensures
        (match r {
            Ok(p) => {
                &&& <TestServer as Readable>::dec_v(buf@.skip(*old(pos) - 1)) == Some(
                    (p@, *final(pos) - *old(pos) + 1),
                )
                &&& *old(pos) <= *final(pos) <= buf@.len()
            },
            Err(_) => <TestServer as Readable>::dec_v(buf@.skip(*old(pos) - 1)) is None,
        }),
{
    let ghost s = buf@.skip(*old(pos) - 1);
    assert(s[0] == 0x57);
    assert(buf@.skip(*pos as int) =~= s.skip(1));
    match <RaceStart as Readable>::read(buf, pos) {
        Ok(p) => Ok(TestServer::RaceStart(p)),
        Err(e) => Err(e),
    }
}

/// Reads the body of this packet; the id byte just before `*pos`
/// has already been read.
#[verifier::rlimit(100)]
#[verifier::spinoff_prover]
fn read_test_server_sector_split(buf: &[u8], pos: &mut usize) -> (r: Result<TestServer, Error>)
    requires
        1 <= *old(pos) <= buf@.len(),
        buf@[*old(pos) - 1] == 0x58,
    ensures
        (match r {
            Ok(p) => {
                &&& <TestServer as Readable>::dec_v(buf@.skip(*old(pos) - 1)) == Some(
                    (p@, *final(pos) - *old(pos) + 1),
                )
                &&& *old(pos) <= *final(pos) <= buf@.len()
            },
            Err(_) => <TestServer as Readable>::dec_v(buf@.skip(*old(pos) - 1)) is None,
        }),
{
    let ghost s = buf@.skip(*old(pos) - 1);
    assert(s[0] == 0x58);
    assert(buf@.skip(*pos as int) =~= s.skip(1));
    match <SectorSplit as Readable>::read(buf, pos) {
        Ok(p) => Ok(TestServer::SectorSplit(p)),
        Err(e) => Err(e),
    }
}

/// Reads the body of this packet; the id byte just before `*pos`
/// has already been read.
#[verifier::rlimit(100)]
#[verifier::spinoff_prover]
fn read_test_server_car_connected(buf: &[u8], pos: &mut usize) -> (r: Result<TestServer, Error>)
    requires
        1 <= *old(pos) <= buf@.len(),
        buf@[*old(pos) - 1] == 0x5a,
    ensures
        (match r {
            Ok(p) => {
                &&& <TestServer as Readable>::dec_v(buf@.skip(*old(pos) - 1)) == Some(
                    (p@, *final(pos) - *old(pos) + 1),
                )
                &&& *old(pos) <= *final(pos) <= buf@.len()
            },
            Err(_) => <TestServer as Readable>::dec_v(buf@.skip(*old(pos) - 1)) is None,
        }),
{
    let ghost s = buf@.skip(*old(pos) - 1);
    assert(s[0] == 0x5a);
    assert(buf@.skip(*pos as int) =~= s.skip(1));
    match <CarConnected as Readable>::read(buf, pos) {
        Ok(p) => Ok(TestServer::CarConnected(p)),
        Err(e) => Err(e),
    }
}

/// Reads the body of this packet; the id byte just before `*pos`
/// has already been read.
#[verifier::rlimit(100)]
#[verifier::spinoff_prover]
fn read_test_server_names(buf: &[u8], pos: &mut usize) -> (r: Result<TestServer, Error>)
    requires
        1 <= *old(pos) <= buf@.len(),
        buf@[*old(pos) - 1] == 0x5b,
    ensures
        (match r {
            Ok(p) => {
                &&& <TestServer as Readable>::dec_v(buf@.skip(*old(pos) - 1)) == Some(
                    (p@, *final(pos) - *old(pos) + 1),
                )
                &&& *old(pos) <= *final(pos) <= buf@.len()
            },
            Err(_) => <TestServer as Readable>::dec_v(buf@.skip(*old(pos) - 1)) is None,
        }),
{
    let ghost s = buf@.skip(*old(pos) - 1);
    assert(s[0] == 0x5b);
    assert(buf@.skip(*pos as int) =~= s.skip(1));
    match <Names as Readable>::read(buf, pos) {
        Ok(p) => Ok(TestServer::Names(p)),
        Err(e) => Err(e),
    }
}

/// Reads the body of this packet; the id byte just before `*pos`
/// has already been read.
#[verifier::rlimit(100)]
#[verifier::spinoff_prover]
fn read_test_server_next_session_vote(buf: &[u8], pos: &mut usize) -> (r: Result<TestServer, Error>)
    requires
        1 <= *old(pos) <= buf@.len(),
        buf@[*old(pos) - 1] == 0x64,
    ensures
        (match r {
            Ok(p) => {
                &&& <TestServer as Readable>::dec_v(buf@.skip(*old(pos) - 1)) == Some(
                    (p@, *final(pos) - *old(pos) + 1),
                )
                &&& *old(pos) <= *final(pos) <= buf@.len()
            },
            Err(_) => <TestServer as Readable>::dec_v(buf@.skip(*old(pos) - 1)) is None,
        }),
{
    let ghost s = buf@.skip(*old(pos) - 1);
    assert(s[0] == 0x64);
    assert(buf@.skip(*pos as int) =~= s.skip(1));
    match <NextSessionVote as Readable>::read(buf, pos) {
        Ok(p) => Ok(TestServer::NextSessionVote(p)),
        Err(e) => Err(e),
    }
}

/// Reads the body of this packet; the id byte just before `*pos`
/// has already been read.
#[verifier::rlimit(100)]
#[verifier::spinoff_prover]
fn read_test_server_restart_session_vote(buf: &[u8], pos: &mut usize) -> (r: Result<TestServer, Error>)
    requires
        1 <= *old(pos) <= buf@.len(),
        buf@[*old(pos) - 1] == 0x65,
    ensures
        (match r {
            Ok(p) => {
                &&& <TestServer as Readable>::dec_v(buf@.skip(*old(pos) - 1)) == Some(
                    (p@, *final(pos) - *old(pos) + 1),
                )
                &&& *old(pos) <= *final(pos) <= buf@.len()
            },
            Err(_) => <TestServer as Readable>::dec_v(buf@.skip(*old(pos) - 1)) is None,
        }),
{
    let ghost s = buf@.skip(*old(pos) - 1);
    assert(s[0] == 0x65);
    assert(buf@.skip(*pos as int) =~= s.skip(1));
    match <RestartSessionVote as Readable>::read(buf, pos) {
        Ok(p) => Ok(TestServer::RestartSessionVote(p)),
        Err(e) => Err(e),
    }
}

/// Reads the body of this packet; the id byte just before `*pos`
/// has already been read.
#[verifier::rlimit(100)]
#[verifier::spinoff_prover]
fn read_test_server_kick_vote(buf: &[u8], pos: &mut usize) -> (r: Result<TestServer, Error>)
    requires
        1 <= *old(pos) <= buf@.len(),
        buf@[*old(pos) - 1] == 0x66,
    ensures
        (match r {
            Ok(p) => {
                &&& <TestServer as Readable>::dec_v(buf@.skip(*old(pos) - 1)) == Some(
                    (p@, *final(pos) - *old(pos) + 1),
                )
                &&& *old(pos) <= *final(pos) <= buf@.len()
            },
            Err(_) => <TestServer as Readable>::dec_v(buf@.skip(*old(pos) - 1)) is None,
        }),
{
    let ghost s = buf@.skip(*old(pos) - 1);
    assert(s[0] == 0x66);
    assert(buf@.skip(*pos as int) =~= s.skip(1));
    match <KickVote as Readable>::read(buf, pos) {
        Ok(p) => Ok(TestServer::KickVote(p)),
        Err(e) => Err(e),
    }
}

/// Reads the body of this packet; the id byte just before `*pos`
/// has already been read.
#[verifier::rlimit(100)]
#[verifier::spinoff_prover]
fn read_test_server_kick(buf: &[u8], pos: &mut usize) -> (r: Result<TestServer, Error>)
    requires
        1 <= *old(pos) <= buf@.len(),
        buf@[*old(pos) - 1] == 0x68,
    ensures
        (match r {
            Ok(p) => {
                &&& <TestServer as Readable>::dec_v(buf@.skip(*old(pos) - 1)) == Some(
                    (p@, *final(pos) - *old(pos) + 1),
                )
                &&& *old(pos) <= *final(pos) <= buf@.len()
            },
            Err(_) => <TestServer as Readable>::dec_v(buf@.skip(*old(pos) - 1)) is None,
        }),
{
    let ghost s = buf@.skip(*old(pos) - 1);
    assert(s[0] == 0x68);
    assert(buf@.skip(*pos as int) =~= s.skip(1));
    match <Kick as Readable>::read(buf, pos) {
        Ok(p) => Ok(TestServer::Kick(p)),
        Err(e) => Err(e),
    }
}

/// Reads the body of this packet; the id byte just before `*pos`
/// has already been read.
#[verifier::rlimit(100)]
#[verifier::spinoff_prover]
fn read_test_server_session_closed(buf: &[u8], pos: &mut usize) -> (r: Result<TestServer, Error>)
    requires
        1 <= *old(pos) <= buf@.len(),
        buf@[*old(pos) - 1] == 0x6e,
    ensures
        (match r {
            Ok(p) => {
                &&& <TestServer as Readable>::dec_v(buf@.skip(*old(pos) - 1)) == Some(
                    (p@, *final(pos) - *old(pos) + 1),
                )
                &&& *old(pos) <= *final(pos) <= buf@.len()
            },
            Err(_) => <TestServer as Readable>::dec_v(buf@.skip(*old(pos) - 1)) is None,
        }),
{
    let ghost s = buf@.skip(*old(pos) - 1);
    assert(s[0] == 0x6e);
    assert(buf@.skip(*pos as int) =~= s.skip(1));
    match <SessionClosed as Readable>::read(buf, pos) {
        Ok(p) => Ok(TestServer::SessionClosed(p)),
        Err(e) => Err(e),
    }
}

/// Reads the body of this packet; the id byte just before `*pos`
/// has already been read.
#[verifier::rlimit(100)]
#[verifier::spinoff_prover]
fn read_test_server_unknown(buf: &[u8], pos: &mut usize) -> (r: Result<TestServer, Error>)
    requires
        1 <= *old(pos) <= buf@.len(),
        buf@[*old(pos) - 1] == 0x6f,
    ensures
        (match r {
            Ok(p) => {
                &&& <TestServer as Readable>::dec_v(buf@.skip(*old(pos) - 1)) == Some(
                    (p@, *final(pos) - *old(pos) + 1),
                )
                &&& *old(pos) <= *final(pos) <= buf@.len()
            },
            Err(_) => <TestServer as Readable>::dec_v(buf@.skip(*old(pos) - 1)) is None,
        }),
{
    let ghost s = buf@.skip(*old(pos) - 1);
    assert(s[0] == 0x6f);
    assert(buf@.skip(*pos as int) =~= s.skip(1));
    match <Unknown as Readable>::read(buf, pos) {
        Ok(p) => Ok(TestServer::Unknown(p)),
        Err(e) => Err(e),
    }
}

/// Reads the body of this packet; the id byte just before `*pos`
/// has already been read.
#[verifier::rlimit(100)]
#[verifier::spinoff_prover]
fn read_test_server_bops(buf: &[u8], pos: &mut usize) -> (r: Result<TestServer, Error>)
    requires
        1 <= *old(pos) <= buf@.len(),
        buf@[*old(pos) - 1] == 0x70,
    ensures
        (match r {
            Ok(p) => {
                &&& <TestServer as Readable>::dec_v(buf@.skip(*old(pos) - 1)) == Some(
                    (p@, *final(pos) - *old(pos) + 1),
                )
                &&& *old(pos) <= *final(pos) <= buf@.len()
            },
            Err(_) => <TestServer as Readable>::dec_v(buf@.skip(*old(pos) - 1)) is None,
        }),
{
    let ghost s = buf@.skip(*old(pos) - 1);
    assert(s[0] == 0x70);
    assert(buf@.skip(*pos as int) =~= s.skip(1));
    match <Bops as Readable>::read(buf, pos) {
        Ok(p) => Ok(TestServer::Bops(p)),
        Err(e) => Err(e),
    }
}

/// Reads the body of this packet; the id byte just before `*pos`
/// has already been read.
#[verifier::rlimit(100)]
#[verifier::spinoff_prover]
fn read_test_server_weather(buf: &[u8], pos: &mut usize) -> (r: Result<TestServer, Error>)
    requires
        1 <= *old(pos) <= buf@.len(),
        buf@[*old(pos) - 1] == 0x78,
    ensures
        (match r {
            Ok(p) => {
                &&& <TestServer as Readable>::dec_v(buf@.skip(*old(pos) - 1)) == Some(
                    (p@, *final(pos) - *old(pos) + 1),
                )
                &&& *old(pos) <= *final(pos) <= buf@.len()
            },
            Err(_) => <TestServer as Readable>::dec_v(buf@.skip(*old(pos) - 1)) is None,
        }),
{
    let ghost s = buf@.skip(*old(pos) - 1);
    assert(s[0] == 0x78);
    assert(buf@.skip(*pos as int) =~= s.skip(1));
    match <Weather as Readable>::read(buf, pos) {
        Ok(p) => Ok(TestServer::Weather(p)),
        Err(e) => Err(e),
    }
}

/// Reads the body of this packet; the id byte just before `*pos`
/// has already been read.
#[verifier::rlimit(100)]
#[verifier::spinoff_prover]
fn read_test_server_ping_cache2(buf: &[u8], pos: &mut usize) -> (r: Result<TestServer, Error>)
    requires
        1 <= *old(pos) <= buf@.len(),
        buf@[*old(pos) - 1] == 0x82,
    ensures
        (match r {
            Ok(p) => {
                &&& <TestServer as Readable>::dec_v(buf@.skip(*old(pos) - 1)) == Some(
                    (p@, *final(pos) - *old(pos) + 1),
                )
                &&& *old(pos) <= *final(pos) <= buf@.len()
            },
            Err(_) => <TestServer as Readable>::dec_v(buf@.skip(*old(pos) - 1)) is None,
        }),
{
    let ghost s = buf@.skip(*old(pos) - 1);
    assert(s[0] == 0x82);
    assert(buf@.skip(*pos as int) =~= s.skip(1));
    match <PingCache2 as Readable>::read(buf, pos) {
        Ok(p) => Ok(TestServer::PingCache2(p)),
        Err(e) => Err(e),
    }
}

/// Reads the body of this packet; the id byte just before `*pos`
/// has already been read.
#[verifier::rlimit(100)]
#[verifier::spinoff_prover]
fn read_test_server_ping_cache(buf: &[u8], pos: &mut usize) -> (r: Result<TestServer, Error>)
    requires
        1 <= *old(pos) <= buf@.len(),
        buf@[*old(pos) - 1] == 0x8c,
    ensures
        (match r {
            Ok(p) => {
                &&& <TestServer as Readable>::dec_v(buf@.skip(*old(pos) - 1)) == Some(
                    (p@, *final(pos) - *old(pos) + 1),
                )
                &&& *old(pos) <= *final(pos) <= buf@.len()
            },
            Err(_) => <TestServer as Readable>::dec_v(buf@.skip(*old(pos) - 1)) is None,
        }),
{
    let ghost s = buf@.skip(*old(pos) - 1);
    assert(s[0] == 0x8c);
    assert(buf@.skip(*pos as int) =~= s.skip(1));
    match <PingCache as Readable>::read(buf, pos) {
        Ok(p) => Ok(TestServer::PingCache(p)),
        Err(e) => Err(e),
    }
}

/// Reads the body of this packet; the id byte just before `*pos`
/// has already been read.
#[verifier::rlimit(100)]
#[verifier::spinoff_prover]
fn read_test_server_lobby_check_message(buf: &[u8], pos: &mut usize) -> (r: Result<TestServer, Error>)
    requires
        1 <= *old(pos) <= buf@.len(),
        buf@[*old(pos) - 1] == 0xc8,
    ensures
        (match r {
            Ok(p) => {
                &&& <TestServer as Readable>::dec_v(buf@.skip(*old(pos) - 1)) == Some(
                    (p@, *final(pos) - *old(pos) + 1),
                )
                &&& *old(pos) <= *final(pos) <= buf@.len()
            },
            Err(_) => <TestServer as Readable>::dec_v(buf@.skip(*old(pos) - 1)) is None,
        }),
{
    let ghost s = buf@.skip(*old(pos) - 1);
    assert(s[0] == 0xc8);
    assert(buf@.skip(*pos as int) =~= s.skip(1));
    match <LobbyCheckMessage as Readable>::read(buf, pos) {
        Ok(p) => Ok(TestServer::LobbyCheckMessage(p)),
        Err(e) => Err(e),
    }
}

/// Reads the body of this packet; the id byte just before `*pos`
/// has already been read.
#[verifier::rlimit(100)]
#[verifier::spinoff_prover]
fn read_test_server_unknown4(buf: &[u8], pos: &mut usize) -> (r: Result<TestServer, Error>)
    requires
        1 <= *old(pos) <= buf@.len(),
        buf@[*old(pos) - 1] == 0xf8,
    ensures
        (match r {
            Ok(p) => {
                &&& <TestServer as Readable>::dec_v(buf@.skip(*old(pos) - 1)) == Some(
                    (p@, *final(pos) - *old(pos) + 1),
                )
                &&& *old(pos) <= *final(pos) <= buf@.len()
            },
            Err(_) => <TestServer as Readable>::dec_v(buf@.skip(*old(pos) - 1)) is None,
        }),
{
    let ghost s = buf@.skip(*old(pos) - 1);
    assert(s[0] == 0xf8);
    assert(buf@.skip(*pos as int) =~= s.skip(1));
    match <Unknown4 as Readable>::read(buf, pos) {
        Ok(p) => Ok(TestServer::Unknown4(p)),
        Err(e) => Err(e),
    }
}

/// Reads the body of this packet; the id byte just before `*pos`
/// has already been read.
#[verifier::rlimit(100)]
#[verifier::spinoff_prover]
fn read_test_server_ping(buf: &[u8], pos: &mut usize) -> (r: Result<TestServer, Error>)
    requires
        1 <= *old(pos) <= buf@.len(),
        buf@[*old(pos) - 1] == 0xf9,
    ensures
        (match r {
            Ok(p) => {
                &&& <TestServer as Readable>::dec_v(buf@.skip(*old(pos) - 1)) == Some(
                    (p@, *final(pos) - *old(pos) + 1),
                )
                &&& *old(pos) <= *final(pos) <= buf@.len()
            },
            Err(_) => <TestServer as Readable>::dec_v(buf@.skip(*old(pos) - 1)) is None,
        }),
{
    let ghost s = buf@.skip(*old(pos) - 1);
    assert(s[0] == 0xf9);
    assert(buf@.skip(*pos as int) =~= s.skip(1));
    match <Ping as Readable>::read(buf, pos) {
        Ok(p) => Ok(TestServer::Ping(p)),
        Err(e) => Err(e),
    }
}

} // verus!
