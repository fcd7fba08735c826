//! Packets sent by the client: the join request, steady-state control
//! messages and datagram updates, together with the catalogue enum that
//! dispatches them by their packet-id byte.
use crate::packets::common::CollisionType;
use crate::packets::common::SessionType;
use crate::packets::common::Vec3f;
use crate::strings::ByteString;
use crate::strings::MD5Array;
use crate::strings::WideString;
use crate::vecs::dec_items;
use crate::vecs::dec_u16_vec;
use crate::vecs::dec_u8_vec;
use crate::vecs::enc_items;
use crate::vecs::enc_u16_vec;
use crate::vecs::enc_u8_vec;
use crate::vecs::lemma_dec_items_sound;
use crate::vecs::lemma_dec_items_complete;
use crate::vecs::lemma_dec_u16_vec_complete;
use crate::vecs::lemma_dec_u16_vec_sound;
use crate::vecs::lemma_dec_u8_vec_complete;
use crate::vecs::lemma_dec_u8_vec_sound;
use crate::vecs::lemma_enc_items_len_fixed;
use crate::vecs::read_items;
use crate::vecs::read_u16_vec;
use crate::vecs::read_u8_vec;
use crate::vecs::views_of;
use crate::vecs::wf_items;
use crate::vecs::wf_u16_vec;
use crate::vecs::wf_u8_vec;
use crate::vecs::write_items;
use crate::vecs::write_u16_vec;
use crate::vecs::write_u8_vec;
use crate::wire::lemma_skip_concat;
use crate::wire::lemma_skip_skip;
use crate::wire::Error;
use crate::wire::Readable;
use crate::wire::Writeable;
use crate::wire::F32;
use vstd::prelude::*;

verus! {


/// The first frame of every connection: the client asks to join with a
/// protocol version, an opaque GUID, a driver name and country, the car
/// model it wants, and the server password.
#[derive(Debug, Clone, PartialEq)]
pub struct JoinRequest {
    pub protocol_version: u16,
    pub guid: ByteString,
    pub driver_name: WideString,
    pub unknown: u8,
    pub driver_country: ByteString,
    pub car_name: ByteString,
    pub server_password: ByteString,
}

/// The mathematical view of [`JoinRequest`].
#[verifier::ext_equal]
pub struct JoinRequestView {
    pub protocol_version: u16,
    pub guid: Seq<u8>,
    pub driver_name: Seq<u32>,
    pub unknown: u8,
    pub driver_country: Seq<u8>,
    pub car_name: Seq<u8>,
    pub server_password: Seq<u8>,
}

impl View for JoinRequest {
    type V = JoinRequestView;

    open spec fn view(&self) -> JoinRequestView {
        JoinRequestView {
            protocol_version: self.protocol_version,
            guid: self.guid@,
            driver_name: self.driver_name@,
            unknown: self.unknown,
            driver_country: self.driver_country@,
            car_name: self.car_name@,
            server_password: self.server_password@,
        }
    }
}

impl Writeable for JoinRequest {
    open spec fn wf_v(w: JoinRequestView) -> bool {
        &&& <ByteString as Writeable>::wf_v(w.guid)
        &&& <WideString as Writeable>::wf_v(w.driver_name)
        &&& <ByteString as Writeable>::wf_v(w.driver_country)
        &&& <ByteString as Writeable>::wf_v(w.car_name)
        &&& <ByteString as Writeable>::wf_v(w.server_password)
    }

    open spec fn enc_v(w: JoinRequestView) -> Seq<u8> {
        <u16 as Writeable>::enc_v(w.protocol_version) + <ByteString as Writeable>::enc_v(w.guid) + <WideString as Writeable>::enc_v(w.driver_name) + <u8 as Writeable>::enc_v(w.unknown) + <ByteString as Writeable>::enc_v(w.driver_country) + <ByteString as Writeable>::enc_v(w.car_name) + <ByteString as Writeable>::enc_v(w.server_password)
    }

    #[verifier::rlimit(100)]
    #[verifier::spinoff_prover]
    fn write(&self, buffer: &mut Vec<u8>) {
        self.protocol_version.write(buffer);
        self.guid.write(buffer);
        self.driver_name.write(buffer);
        self.unknown.write(buffer);
        self.driver_country.write(buffer);
        self.car_name.write(buffer);
        self.server_password.write(buffer);
        assert(buffer@ =~= old(buffer)@ + Self::enc_v(self@));
    }
}

impl Readable for JoinRequest {
    open spec fn dec_v(s: Seq<u8>) -> Option<(JoinRequestView, int)> {
        match <u16 as Readable>::dec_v(s) {
            None => None,
            Some((protocol_version, n1)) => 
            match <ByteString as Readable>::dec_v(s.skip(n1)) {
                None => None,
                Some((guid, n2)) => 
                match <WideString as Readable>::dec_v(s.skip(n1 + n2)) {
                    None => None,
                    Some((driver_name, n3)) => 
                    match <u8 as Readable>::dec_v(s.skip(n1 + n2 + n3)) {
                        None => None,
                        Some((unknown, n4)) => 
                        match <ByteString as Readable>::dec_v(s.skip(n1 + n2 + n3 + n4)) {
                            None => None,
                            Some((driver_country, n5)) => 
                            match <ByteString as Readable>::dec_v(s.skip(n1 + n2 + n3 + n4 + n5)) {
                                None => None,
                                Some((car_name, n6)) => 
                                match <ByteString as Readable>::dec_v(s.skip(n1 + n2 + n3 + n4 + n5 + n6)) {
                                    None => None,
                                    Some((server_password, n7)) => Some((JoinRequestView { protocol_version, guid, driver_name, unknown, driver_country, car_name, server_password }, n1 + n2 + n3 + n4 + n5 + n6 + n7)),
                                },
                            },
                        },
                    },
                },
            },
        }
    }

    open spec fn reads_to_end() -> bool {
        false
    }

    #[verifier::rlimit(100)]
    #[verifier::spinoff_prover]
    proof fn lemma_dec_sound(s: Seq<u8>) {
        <u16 as Readable>::lemma_dec_sound(s);
        if let Some((protocol_version, n1)) = <u16 as Readable>::dec_v(s) {
            <ByteString as Readable>::lemma_dec_sound(s.skip(n1));
            if let Some((guid, n2)) = <ByteString as Readable>::dec_v(s.skip(n1)) {
                <WideString as Readable>::lemma_dec_sound(s.skip(n1 + n2));
                if let Some((driver_name, n3)) = <WideString as Readable>::dec_v(s.skip(n1 + n2)) {
                    <u8 as Readable>::lemma_dec_sound(s.skip(n1 + n2 + n3));
                    if let Some((unknown, n4)) = <u8 as Readable>::dec_v(s.skip(n1 + n2 + n3)) {
                        <ByteString as Readable>::lemma_dec_sound(s.skip(n1 + n2 + n3 + n4));
                        if let Some((driver_country, n5)) = <ByteString as Readable>::dec_v(s.skip(n1 + n2 + n3 + n4)) {
                            <ByteString as Readable>::lemma_dec_sound(s.skip(n1 + n2 + n3 + n4 + n5));
                            if let Some((car_name, n6)) = <ByteString as Readable>::dec_v(s.skip(n1 + n2 + n3 + n4 + n5)) {
                                <ByteString as Readable>::lemma_dec_sound(s.skip(n1 + n2 + n3 + n4 + n5 + n6));
                                if let Some((server_password, n7)) = <ByteString as Readable>::dec_v(s.skip(n1 + n2 + n3 + n4 + n5 + n6)) {
                                    assert(s.take(n1) + s.skip(n1).take(n2) =~= s.take(n1 + n2));
                                    assert(s.take(n1 + n2) + s.skip(n1 + n2).take(n3) =~= s.take(n1 + n2 + n3));
                                    assert(s.take(n1 + n2 + n3) + s.skip(n1 + n2 + n3).take(n4) =~= s.take(n1 + n2 + n3 + n4));
                                    assert(s.take(n1 + n2 + n3 + n4) + s.skip(n1 + n2 + n3 + n4).take(n5) =~= s.take(n1 + n2 + n3 + n4 + n5));
                                    assert(s.take(n1 + n2 + n3 + n4 + n5) + s.skip(n1 + n2 + n3 + n4 + n5).take(n6) =~= s.take(n1 + n2 + n3 + n4 + n5 + n6));
                                    assert(s.take(n1 + n2 + n3 + n4 + n5 + n6) + s.skip(n1 + n2 + n3 + n4 + n5 + n6).take(n7) =~= s.take(n1 + n2 + n3 + n4 + n5 + n6 + n7));
                                }
                            }
                        }
                    }
                }
            }
        }
    }

    #[verifier::rlimit(100)]
    #[verifier::spinoff_prover]
    proof fn lemma_dec_complete(w: JoinRequestView, rest: Seq<u8>) {
        let e1 = <u16 as Writeable>::enc_v(w.protocol_version);
        let e2 = <ByteString as Writeable>::enc_v(w.guid);
        let e3 = <WideString as Writeable>::enc_v(w.driver_name);
        let e4 = <u8 as Writeable>::enc_v(w.unknown);
        let e5 = <ByteString as Writeable>::enc_v(w.driver_country);
        let e6 = <ByteString as Writeable>::enc_v(w.car_name);
        let e7 = <ByteString as Writeable>::enc_v(w.server_password);
        let r7 = rest;
        let r6 = e7 + r7;
        let r5 = e6 + r6;
        let r4 = e5 + r5;
        let r3 = e4 + r4;
        let r2 = e3 + r3;
        let r1 = e2 + r2;
        let s = Self::enc_v(w) + rest;
        assert(s =~= e1 + r1);
        <u16 as Readable>::lemma_dec_complete(w.protocol_version, r1);
        lemma_skip_concat(e1, r1);
        <ByteString as Readable>::lemma_dec_complete(w.guid, r2);
        lemma_skip_concat(e2, r2);
        lemma_skip_skip(s, (e1.len()) as int, e2.len() as int);
        <WideString as Readable>::lemma_dec_complete(w.driver_name, r3);
        lemma_skip_concat(e3, r3);
        lemma_skip_skip(s, (e1.len() + e2.len()) as int, e3.len() as int);
        <u8 as Readable>::lemma_dec_complete(w.unknown, r4);
        lemma_skip_concat(e4, r4);
        lemma_skip_skip(s, (e1.len() + e2.len() + e3.len()) as int, e4.len() as int);
        <ByteString as Readable>::lemma_dec_complete(w.driver_country, r5);
        lemma_skip_concat(e5, r5);
        lemma_skip_skip(s, (e1.len() + e2.len() + e3.len() + e4.len()) as int, e5.len() as int);
        <ByteString as Readable>::lemma_dec_complete(w.car_name, r6);
        lemma_skip_concat(e6, r6);
        lemma_skip_skip(s, (e1.len() + e2.len() + e3.len() + e4.len() + e5.len()) as int, e6.len() as int);
        <ByteString as Readable>::lemma_dec_complete(w.server_password, r7);
        lemma_skip_concat(e7, r7);
        lemma_skip_skip(s, (e1.len() + e2.len() + e3.len() + e4.len() + e5.len() + e6.len()) as int, e7.len() as int);
    }

    #[verifier::rlimit(100)]
    #[verifier::spinoff_prover]
    fn read(buf: &[u8], pos: &mut usize) -> (r: Result<JoinRequest, Error>) {
        let ghost s = buf@.skip(*pos as int);
        let ghost p0 = *pos;
        let f_protocol_version = match <u16 as Readable>::read(buf, pos) {
            Ok(v) => v,
            Err(e) => {
                return Err(e);
            },
        };
        assert(buf@.skip(*pos as int) =~= s.skip(*pos - p0));
        let f_guid = match <ByteString as Readable>::read(buf, pos) {
            Ok(v) => v,
            Err(e) => {
                return Err(e);
            },
        };
        assert(buf@.skip(*pos as int) =~= s.skip(*pos - p0));
        let f_driver_name = match <WideString as Readable>::read(buf, pos) {
            Ok(v) => v,
            Err(e) => {
                return Err(e);
            },
        };
        assert(buf@.skip(*pos as int) =~= s.skip(*pos - p0));
        let f_unknown = match <u8 as Readable>::read(buf, pos) {
            Ok(v) => v,
            Err(e) => {
                return Err(e);
            },
        };
        assert(buf@.skip(*pos as int) =~= s.skip(*pos - p0));
        let f_driver_country = match <ByteString as Readable>::read(buf, pos) {
            Ok(v) => v,
            Err(e) => {
                return Err(e);
            },
        };
        assert(buf@.skip(*pos as int) =~= s.skip(*pos - p0));
        let f_car_name = match <ByteString as Readable>::read(buf, pos) {
            Ok(v) => v,
            Err(e) => {
                return Err(e);
            },
        };
        assert(buf@.skip(*pos as int) =~= s.skip(*pos - p0));
        let f_server_password = match <ByteString as Readable>::read(buf, pos) {
            Ok(v) => v,
            Err(e) => {
                return Err(e);
            },
        };
        let v = JoinRequest { protocol_version: f_protocol_version, guid: f_guid, driver_name: f_driver_name, unknown: f_unknown, driver_country: f_driver_country, car_name: f_car_name, server_password: f_server_password };
        assert(v@ =~= JoinRequestView { protocol_version: f_protocol_version, guid: f_guid@, driver_name: f_driver_name@, unknown: f_unknown, driver_country: f_driver_country@, car_name: f_car_name@, server_password: f_server_password@ });
        Ok(v)
    }
}

/// Asks for the car list from the given slot index onward.
#[derive(Debug, Clone, Copy, PartialEq, Eq, Structural)]
pub struct CarlistRequest {
    pub index: u8,
}

impl View for CarlistRequest {
    type V = CarlistRequest;

    open spec fn view(&self) -> CarlistRequest {
        *self
    }
}

impl Writeable for CarlistRequest {
    open spec fn wf_v(w: CarlistRequest) -> bool {
        true
    }

    open spec fn enc_v(w: CarlistRequest) -> Seq<u8> {
        <u8 as Writeable>::enc_v(w.index)
    }

    fn write(&self, buffer: &mut Vec<u8>) {
        self.index.write(buffer);
        assert(buffer@ =~= old(buffer)@ + Self::enc_v(self@));
    }
}

impl Readable for CarlistRequest {
    open spec fn dec_v(s: Seq<u8>) -> Option<(CarlistRequest, int)> {
        match <u8 as Readable>::dec_v(s) {
            None => None,
            Some((index, n1)) => Some((CarlistRequest { index }, n1)),
        }
    }

    open spec fn reads_to_end() -> bool {
        false
    }

    proof fn lemma_dec_sound(s: Seq<u8>) {
        <u8 as Readable>::lemma_dec_sound(s);
        if let Some((index, n1)) = <u8 as Readable>::dec_v(s) {
        }
    }

    proof fn lemma_dec_complete(w: CarlistRequest, rest: Seq<u8>) {
        let e1 = <u8 as Writeable>::enc_v(w.index);
        let r1 = rest;
        let s = Self::enc_v(w) + rest;
        assert(s =~= e1 + r1);
        <u8 as Readable>::lemma_dec_complete(w.index, r1);
        lemma_skip_concat(e1, r1);
    }

    fn read(buf: &[u8], pos: &mut usize) -> (r: Result<CarlistRequest, Error>) {
        let ghost s = buf@.skip(*pos as int);
        let ghost p0 = *pos;
        let f_index = match <u8 as Readable>::read(buf, pos) {
            Ok(v) => v,
            Err(e) => {
                return Err(e);
            },
        };
        let v = CarlistRequest { index: f_index };
        Ok(v)
    }
}

/// The client announces that it is leaving.
#[derive(Debug, Clone, Copy, PartialEq, Eq, Structural)]
pub struct Disconnect {
}

impl View for Disconnect {
    type V = Disconnect;

    open spec fn view(&self) -> Disconnect {
        *self
    }
}

impl Writeable for Disconnect {
    open spec fn wf_v(w: Disconnect) -> bool {
        true
    }

    open spec fn enc_v(w: Disconnect) -> Seq<u8> {
        Seq::empty()
    }

    fn write(&self, buffer: &mut Vec<u8>) {
        assert(buffer@ =~= old(buffer)@ + Self::enc_v(self@));
    }
}

impl Readable for Disconnect {
    open spec fn dec_v(s: Seq<u8>) -> Option<(Disconnect, int)> {
        Some((Disconnect {  }, 0int))
    }

    open spec fn reads_to_end() -> bool {
        false
    }

    proof fn lemma_dec_sound(s: Seq<u8>) {
    }

    proof fn lemma_dec_complete(w: Disconnect, rest: Seq<u8>) {
        assert(Self::enc_v(w) + rest =~= rest);
        assert(w == Disconnect {  });
    }

    fn read(buf: &[u8], pos: &mut usize) -> (r: Result<Disconnect, Error>) {
        Ok(Disconnect {  })
    }
}

/// The client changed its tyre compound.
#[derive(Debug, Clone, PartialEq)]
pub struct ChangeTireCompound {
    pub tire_compound: ByteString,
}

/// The mathematical view of [`ChangeTireCompound`].
#[verifier::ext_equal]
pub struct ChangeTireCompoundView {
    pub tire_compound: Seq<u8>,
}

impl View for ChangeTireCompound {
    type V = ChangeTireCompoundView;

    open spec fn view(&self) -> ChangeTireCompoundView {
        ChangeTireCompoundView {
            tire_compound: self.tire_compound@,
        }
    }
}

impl Writeable for ChangeTireCompound {
    open spec fn wf_v(w: ChangeTireCompoundView) -> bool {
        <ByteString as Writeable>::wf_v(w.tire_compound)
    }

    open spec fn enc_v(w: ChangeTireCompoundView) -> Seq<u8> {
        <ByteString as Writeable>::enc_v(w.tire_compound)
    }

    fn write(&self, buffer: &mut Vec<u8>) {
        self.tire_compound.write(buffer);
        assert(buffer@ =~= old(buffer)@ + Self::enc_v(self@));
    }
}

impl Readable for ChangeTireCompound {
    open spec fn dec_v(s: Seq<u8>) -> Option<(ChangeTireCompoundView, int)> {
        match <ByteString as Readable>::dec_v(s) {
            None => None,
            Some((tire_compound, n1)) => Some((ChangeTireCompoundView { tire_compound }, n1)),
        }
    }

    open spec fn reads_to_end() -> bool {
        false
    }

    proof fn lemma_dec_sound(s: Seq<u8>) {
        <ByteString as Readable>::lemma_dec_sound(s);
        if let Some((tire_compound, n1)) = <ByteString as Readable>::dec_v(s) {
        }
    }

    proof fn lemma_dec_complete(w: ChangeTireCompoundView, rest: Seq<u8>) {
        let e1 = <ByteString as Writeable>::enc_v(w.tire_compound);
        let r1 = rest;
        let s = Self::enc_v(w) + rest;
        assert(s =~= e1 + r1);
        <ByteString as Readable>::lemma_dec_complete(w.tire_compound, r1);
        lemma_skip_concat(e1, r1);
    }

    fn read(buf: &[u8], pos: &mut usize) -> (r: Result<ChangeTireCompound, Error>) {
        let ghost s = buf@.skip(*pos as int);
        let ghost p0 = *pos;
        let f_tire_compound = match <ByteString as Readable>::read(buf, pos) {
            Ok(v) => v,
            Err(e) => {
                return Err(e);
            },
        };
        let v = ChangeTireCompound { tire_compound: f_tire_compound };
        assert(v@ =~= ChangeTireCompoundView { tire_compound: f_tire_compound@ });
        Ok(v)
    }
}

/// Reply to a server ping, carrying the ping send time and the
/// client-reported time offset.
#[derive(Debug, Clone, Copy, PartialEq, Eq, Structural)]
pub struct Pong {
    pub ping: u32,
    pub time_offset: u32,
}

impl View for Pong {
    type V = Pong;

    open spec fn view(&self) -> Pong {
        *self
    }
}

impl Writeable for Pong {
    open spec fn wf_v(w: Pong) -> bool {
        true
    }

    open spec fn enc_v(w: Pong) -> Seq<u8> {
        <u32 as Writeable>::enc_v(w.ping) + <u32 as Writeable>::enc_v(w.time_offset)
    }

    fn write(&self, buffer: &mut Vec<u8>) {
        self.ping.write(buffer);
        self.time_offset.write(buffer);
        assert(buffer@ =~= old(buffer)@ + Self::enc_v(self@));
    }
}

impl Readable for Pong {
    open spec fn dec_v(s: Seq<u8>) -> Option<(Pong, int)> {
        match <u32 as Readable>::dec_v(s) {
            None => None,
            Some((ping, n1)) => 
            match <u32 as Readable>::dec_v(s.skip(n1)) {
                None => None,
                Some((time_offset, n2)) => Some((Pong { ping, time_offset }, n1 + n2)),
            },
        }
    }

    open spec fn reads_to_end() -> bool {
        false
    }

    proof fn lemma_dec_sound(s: Seq<u8>) {
        <u32 as Readable>::lemma_dec_sound(s);
        if let Some((ping, n1)) = <u32 as Readable>::dec_v(s) {
            <u32 as Readable>::lemma_dec_sound(s.skip(n1));
            if let Some((time_offset, n2)) = <u32 as Readable>::dec_v(s.skip(n1)) {
                assert(s.take(n1) + s.skip(n1).take(n2) =~= s.take(n1 + n2));
            }
        }
    }

    proof fn lemma_dec_complete(w: Pong, rest: Seq<u8>) {
        let e1 = <u32 as Writeable>::enc_v(w.ping);
        let e2 = <u32 as Writeable>::enc_v(w.time_offset);
        let r2 = rest;
        let r1 = e2 + r2;
        let s = Self::enc_v(w) + rest;
        assert(s =~= e1 + r1);
        <u32 as Readable>::lemma_dec_complete(w.ping, r1);
        lemma_skip_concat(e1, r1);
        <u32 as Readable>::lemma_dec_complete(w.time_offset, r2);
        lemma_skip_concat(e2, r2);
        lemma_skip_skip(s, (e1.len()) as int, e2.len() as int);
    }

    fn read(buf: &[u8], pos: &mut usize) -> (r: Result<Pong, Error>) {
        let ghost s = buf@.skip(*pos as int);
        let ghost p0 = *pos;
        let f_ping = match <u32 as Readable>::read(buf, pos) {
            Ok(v) => v,
            Err(e) => {
                return Err(e);
            },
        };
        assert(buf@.skip(*pos as int) =~= s.skip(*pos - p0));
        let f_time_offset = match <u32 as Readable>::read(buf, pos) {
            Ok(v) => v,
            Err(e) => {
                return Err(e);
            },
        };
        let v = Pong { ping: f_ping, time_offset: f_time_offset };
        Ok(v)
    }
}

/// A bare datagram keepalive.
#[derive(Debug, Clone, Copy, PartialEq, Eq, Structural)]
pub struct Pulse {
}

impl View for Pulse {
    type V = Pulse;

    open spec fn view(&self) -> Pulse {
        *self
    }
}

impl Writeable for Pulse {
    open spec fn wf_v(w: Pulse) -> bool {
        true
    }

    open spec fn enc_v(w: Pulse) -> Seq<u8> {
        Seq::empty()
    }

    fn write(&self, buffer: &mut Vec<u8>) {
        assert(buffer@ =~= old(buffer)@ + Self::enc_v(self@));
    }
}

impl Readable for Pulse {
    open spec fn dec_v(s: Seq<u8>) -> Option<(Pulse, int)> {
        Some((Pulse {  }, 0int))
    }

    open spec fn reads_to_end() -> bool {
        false
    }

    proof fn lemma_dec_sound(s: Seq<u8>) {
    }

    proof fn lemma_dec_complete(w: Pulse, rest: Seq<u8>) {
        assert(Self::enc_v(w) + rest =~= rest);
        assert(w == Pulse {  });
    }

    fn read(buf: &[u8], pos: &mut usize) -> (r: Result<Pulse, Error>) {
        Ok(Pulse {  })
    }
}

/// A ping originating from the client.
#[derive(Debug, Clone, Copy, PartialEq, Eq, Structural)]
pub struct Ping {
    pub unknown: u32,
    pub unknown2: u16,
}

impl View for Ping {
    type V = Ping;

    open spec fn view(&self) -> Ping {
        *self
    }
}

impl Writeable for Ping {
    open spec fn wf_v(w: Ping) -> bool {
        true
    }

    open spec fn enc_v(w: Ping) -> Seq<u8> {
        <u32 as Writeable>::enc_v(w.unknown) + <u16 as Writeable>::enc_v(w.unknown2)
    }

    fn write(&self, buffer: &mut Vec<u8>) {
        self.unknown.write(buffer);
        self.unknown2.write(buffer);
        assert(buffer@ =~= old(buffer)@ + Self::enc_v(self@));
    }
}

impl Readable for Ping {
    open spec fn dec_v(s: Seq<u8>) -> Option<(Ping, int)> {
        match <u32 as Readable>::dec_v(s) {
            None => None,
            Some((unknown, n1)) => 
            match <u16 as Readable>::dec_v(s.skip(n1)) {
                None => None,
                Some((unknown2, n2)) => Some((Ping { unknown, unknown2 }, n1 + n2)),
            },
        }
    }

    open spec fn reads_to_end() -> bool {
        false
    }

    proof fn lemma_dec_sound(s: Seq<u8>) {
        <u32 as Readable>::lemma_dec_sound(s);
        if let Some((unknown, n1)) = <u32 as Readable>::dec_v(s) {
            <u16 as Readable>::lemma_dec_sound(s.skip(n1));
            if let Some((unknown2, n2)) = <u16 as Readable>::dec_v(s.skip(n1)) {
                assert(s.take(n1) + s.skip(n1).take(n2) =~= s.take(n1 + n2));
            }
        }
    }

    proof fn lemma_dec_complete(w: Ping, rest: Seq<u8>) {
        let e1 = <u32 as Writeable>::enc_v(w.unknown);
        let e2 = <u16 as Writeable>::enc_v(w.unknown2);
        let r2 = rest;
        let r1 = e2 + r2;
        let s = Self::enc_v(w) + rest;
        assert(s =~= e1 + r1);
        <u32 as Readable>::lemma_dec_complete(w.unknown, r1);
        lemma_skip_concat(e1, r1);
        <u16 as Readable>::lemma_dec_complete(w.unknown2, r2);
        lemma_skip_concat(e2, r2);
        lemma_skip_skip(s, (e1.len()) as int, e2.len() as int);
    }

    fn read(buf: &[u8], pos: &mut usize) -> (r: Result<Ping, Error>) {
        let ghost s = buf@.skip(*pos as int);
        let ghost p0 = *pos;
        let f_unknown = match <u32 as Readable>::read(buf, pos) {
            Ok(v) => v,
            Err(e) => {
                return Err(e);
            },
        };
        assert(buf@.skip(*pos as int) =~= s.skip(*pos - p0));
        let f_unknown2 = match <u16 as Readable>::read(buf, pos) {
            Ok(v) => v,
            Err(e) => {
                return Err(e);
            },
        };
        let v = Ping { unknown: f_unknown, unknown2: f_unknown2 };
        Ok(v)
    }
}

/// The client reports its mandatory-pit state.
#[derive(Debug, Clone, Copy, PartialEq, Eq, Structural)]
pub struct MandatoryPit {
    pub unknown: u8,
}

impl View for MandatoryPit {
    type V = MandatoryPit;

    open spec fn view(&self) -> MandatoryPit {
        *self
    }
}

impl Writeable for MandatoryPit {
    open spec fn wf_v(w: MandatoryPit) -> bool {
        true
    }

    open spec fn enc_v(w: MandatoryPit) -> Seq<u8> {
        <u8 as Writeable>::enc_v(w.unknown)
    }

    fn write(&self, buffer: &mut Vec<u8>) {
        self.unknown.write(buffer);
        assert(buffer@ =~= old(buffer)@ + Self::enc_v(self@));
    }
}

impl Readable for MandatoryPit {
    open spec fn dec_v(s: Seq<u8>) -> Option<(MandatoryPit, int)> {
        match <u8 as Readable>::dec_v(s) {
            None => None,
            Some((unknown, n1)) => Some((MandatoryPit { unknown }, n1)),
        }
    }

    open spec fn reads_to_end() -> bool {
        false
    }

    proof fn lemma_dec_sound(s: Seq<u8>) {
        <u8 as Readable>::lemma_dec_sound(s);
        if let Some((unknown, n1)) = <u8 as Readable>::dec_v(s) {
        }
    }

    proof fn lemma_dec_complete(w: MandatoryPit, rest: Seq<u8>) {
        let e1 = <u8 as Writeable>::enc_v(w.unknown);
        let r1 = rest;
        let s = Self::enc_v(w) + rest;
        assert(s =~= e1 + r1);
        <u8 as Readable>::lemma_dec_complete(w.unknown, r1);
        lemma_skip_concat(e1, r1);
    }

    fn read(buf: &[u8], pos: &mut usize) -> (r: Result<MandatoryPit, Error>) {
        let ghost s = buf@.skip(*pos as int);
        let ghost p0 = *pos;
        let f_unknown = match <u8 as Readable>::read(buf, pos) {
            Ok(v) => v,
            Err(e) => {
                return Err(e);
            },
        };
        let v = MandatoryPit { unknown: f_unknown };
        Ok(v)
    }
}

/// The client reports a sector split.
#[derive(Debug, Clone, Copy, PartialEq, Eq, Structural)]
pub struct SectorSplit {
    pub unknown: u8,
    pub unknown2: u32,
    pub unknown3: u8,
}

impl View for SectorSplit {
    type V = SectorSplit;

    open spec fn view(&self) -> SectorSplit {
        *self
    }
}

impl Writeable for SectorSplit {
    open spec fn wf_v(w: SectorSplit) -> bool {
        true
    }

    open spec fn enc_v(w: SectorSplit) -> Seq<u8> {
        <u8 as Writeable>::enc_v(w.unknown) + <u32 as Writeable>::enc_v(w.unknown2) + <u8 as Writeable>::enc_v(w.unknown3)
    }

    fn write(&self, buffer: &mut Vec<u8>) {
        self.unknown.write(buffer);
        self.unknown2.write(buffer);
        self.unknown3.write(buffer);
        assert(buffer@ =~= old(buffer)@ + Self::enc_v(self@));
    }
}

impl Readable for SectorSplit {
    open spec fn dec_v(s: Seq<u8>) -> Option<(SectorSplit, int)> {
        match <u8 as Readable>::dec_v(s) {
            None => None,
            Some((unknown, n1)) => 
            match <u32 as Readable>::dec_v(s.skip(n1)) {
                None => None,
                Some((unknown2, n2)) => 
                match <u8 as Readable>::dec_v(s.skip(n1 + n2)) {
                    None => None,
                    Some((unknown3, n3)) => Some((SectorSplit { unknown, unknown2, unknown3 }, n1 + n2 + n3)),
                },
            },
        }
    }

    open spec fn reads_to_end() -> bool {
        false
    }

    proof fn lemma_dec_sound(s: Seq<u8>) {
        <u8 as Readable>::lemma_dec_sound(s);
        if let Some((unknown, n1)) = <u8 as Readable>::dec_v(s) {
            <u32 as Readable>::lemma_dec_sound(s.skip(n1));
            if let Some((unknown2, n2)) = <u32 as Readable>::dec_v(s.skip(n1)) {
                <u8 as Readable>::lemma_dec_sound(s.skip(n1 + n2));
                if let Some((unknown3, n3)) = <u8 as Readable>::dec_v(s.skip(n1 + n2)) {
                    assert(s.take(n1) + s.skip(n1).take(n2) =~= s.take(n1 + n2));
                    assert(s.take(n1 + n2) + s.skip(n1 + n2).take(n3) =~= s.take(n1 + n2 + n3));
                }
            }
        }
    }

    proof fn lemma_dec_complete(w: SectorSplit, rest: Seq<u8>) {
        let e1 = <u8 as Writeable>::enc_v(w.unknown);
        let e2 = <u32 as Writeable>::enc_v(w.unknown2);
        let e3 = <u8 as Writeable>::enc_v(w.unknown3);
        let r3 = rest;
        let r2 = e3 + r3;
        let r1 = e2 + r2;
        let s = Self::enc_v(w) + rest;
        assert(s =~= e1 + r1);
        <u8 as Readable>::lemma_dec_complete(w.unknown, r1);
        lemma_skip_concat(e1, r1);
        <u32 as Readable>::lemma_dec_complete(w.unknown2, r2);
        lemma_skip_concat(e2, r2);
        lemma_skip_skip(s, (e1.len()) as int, e2.len() as int);
        <u8 as Readable>::lemma_dec_complete(w.unknown3, r3);
        lemma_skip_concat(e3, r3);
        lemma_skip_skip(s, (e1.len() + e2.len()) as int, e3.len() as int);
    }

    fn read(buf: &[u8], pos: &mut usize) -> (r: Result<SectorSplit, Error>) {
        let ghost s = buf@.skip(*pos as int);
        let ghost p0 = *pos;
        let f_unknown = match <u8 as Readable>::read(buf, pos) {
            Ok(v) => v,
            Err(e) => {
                return Err(e);
            },
        };
        assert(buf@.skip(*pos as int) =~= s.skip(*pos - p0));
        let f_unknown2 = match <u32 as Readable>::read(buf, pos) {
            Ok(v) => v,
            Err(e) => {
                return Err(e);
            },
        };
        assert(buf@.skip(*pos as int) =~= s.skip(*pos - p0));
        let f_unknown3 = match <u8 as Readable>::read(buf, pos) {
            Ok(v) => v,
            Err(e) => {
                return Err(e);
            },
        };
        let v = SectorSplit { unknown: f_unknown, unknown2: f_unknown2, unknown3: f_unknown3 };
        Ok(v)
    }
}

/// A vote to advance to the next session.
#[derive(Debug, Clone, Copy, PartialEq, Eq, Structural)]
pub struct NextSessionVote {
    pub unknown: u8,
}

impl View for NextSessionVote {
    type V = NextSessionVote;

    open spec fn view(&self) -> NextSessionVote {
        *self
    }
}

impl Writeable for NextSessionVote {
    open spec fn wf_v(w: NextSessionVote) -> bool {
        true
    }

    open spec fn enc_v(w: NextSessionVote) -> Seq<u8> {
        <u8 as Writeable>::enc_v(w.unknown)
    }

    fn write(&self, buffer: &mut Vec<u8>) {
        self.unknown.write(buffer);
        assert(buffer@ =~= old(buffer)@ + Self::enc_v(self@));
    }
}

impl Readable for NextSessionVote {
    open spec fn dec_v(s: Seq<u8>) -> Option<(NextSessionVote, int)> {
        match <u8 as Readable>::dec_v(s) {
            None => None,
            Some((unknown, n1)) => Some((NextSessionVote { unknown }, n1)),
        }
    }

    open spec fn reads_to_end() -> bool {
        false
    }

    proof fn lemma_dec_sound(s: Seq<u8>) {
        <u8 as Readable>::lemma_dec_sound(s);
        if let Some((unknown, n1)) = <u8 as Readable>::dec_v(s) {
        }
    }

    proof fn lemma_dec_complete(w: NextSessionVote, rest: Seq<u8>) {
        let e1 = <u8 as Writeable>::enc_v(w.unknown);
        let r1 = rest;
        let s = Self::enc_v(w) + rest;
        assert(s =~= e1 + r1);
        <u8 as Readable>::lemma_dec_complete(w.unknown, r1);
        lemma_skip_concat(e1, r1);
    }

    fn read(buf: &[u8], pos: &mut usize) -> (r: Result<NextSessionVote, Error>) {
        let ghost s = buf@.skip(*pos as int);
        let ghost p0 = *pos;
        let f_unknown = match <u8 as Readable>::read(buf, pos) {
            Ok(v) => v,
            Err(e) => {
                return Err(e);
            },
        };
        let v = NextSessionVote { unknown: f_unknown };
        Ok(v)
    }
}

/// A vote to restart the current session.
#[derive(Debug, Clone, Copy, PartialEq, Eq, Structural)]
pub struct RestartSessionVote {
    pub unknown: u8,
}

impl View for RestartSessionVote {
    type V = RestartSessionVote;

    open spec fn view(&self) -> RestartSessionVote {
        *self
    }
}

impl Writeable for RestartSessionVote {
    open spec fn wf_v(w: RestartSessionVote) -> bool {
        true
    }

    open spec fn enc_v(w: RestartSessionVote) -> Seq<u8> {
        <u8 as Writeable>::enc_v(w.unknown)
    }

    fn write(&self, buffer: &mut Vec<u8>) {
        self.unknown.write(buffer);
        assert(buffer@ =~= old(buffer)@ + Self::enc_v(self@));
    }
}

impl Readable for RestartSessionVote {
    open spec fn dec_v(s: Seq<u8>) -> Option<(RestartSessionVote, int)> {
        match <u8 as Readable>::dec_v(s) {
            None => None,
            Some((unknown, n1)) => Some((RestartSessionVote { unknown }, n1)),
        }
    }

    open spec fn reads_to_end() -> bool {
        false
    }

    proof fn lemma_dec_sound(s: Seq<u8>) {
        <u8 as Readable>::lemma_dec_sound(s);
        if let Some((unknown, n1)) = <u8 as Readable>::dec_v(s) {
        }
    }

    proof fn lemma_dec_complete(w: RestartSessionVote, rest: Seq<u8>) {
        let e1 = <u8 as Writeable>::enc_v(w.unknown);
        let r1 = rest;
        let s = Self::enc_v(w) + rest;
        assert(s =~= e1 + r1);
        <u8 as Readable>::lemma_dec_complete(w.unknown, r1);
        lemma_skip_concat(e1, r1);
    }

    fn read(buf: &[u8], pos: &mut usize) -> (r: Result<RestartSessionVote, Error>) {
        let ghost s = buf@.skip(*pos as int);
        let ghost p0 = *pos;
        let f_unknown = match <u8 as Readable>::read(buf, pos) {
            Ok(v) => v,
            Err(e) => {
                return Err(e);
            },
        };
        let v = RestartSessionVote { unknown: f_unknown };
        Ok(v)
    }
}

/// A vote to kick the driver of the given car slot.
#[derive(Debug, Clone, Copy, PartialEq, Eq, Structural)]
pub struct KickVote {
    pub car_id: u8,
    pub unknown2: u8,
}

impl View for KickVote {
    type V = KickVote;

    open spec fn view(&self) -> KickVote {
        *self
    }
}

impl Writeable for KickVote {
    open spec fn wf_v(w: KickVote) -> bool {
        true
    }

    open spec fn enc_v(w: KickVote) -> Seq<u8> {
        <u8 as Writeable>::enc_v(w.car_id) + <u8 as Writeable>::enc_v(w.unknown2)
    }

    fn write(&self, buffer: &mut Vec<u8>) {
        self.car_id.write(buffer);
        self.unknown2.write(buffer);
        assert(buffer@ =~= old(buffer)@ + Self::enc_v(self@));
    }
}

impl Readable for KickVote {
    open spec fn dec_v(s: Seq<u8>) -> Option<(KickVote, int)> {
        match <u8 as Readable>::dec_v(s) {
            None => None,
            Some((car_id, n1)) => 
            match <u8 as Readable>::dec_v(s.skip(n1)) {
                None => None,
                Some((unknown2, n2)) => Some((KickVote { car_id, unknown2 }, n1 + n2)),
            },
        }
    }

    open spec fn reads_to_end() -> bool {
        false
    }

    proof fn lemma_dec_sound(s: Seq<u8>) {
        <u8 as Readable>::lemma_dec_sound(s);
        if let Some((car_id, n1)) = <u8 as Readable>::dec_v(s) {
            <u8 as Readable>::lemma_dec_sound(s.skip(n1));
            if let Some((unknown2, n2)) = <u8 as Readable>::dec_v(s.skip(n1)) {
                assert(s.take(n1) + s.skip(n1).take(n2) =~= s.take(n1 + n2));
            }
        }
    }

    proof fn lemma_dec_complete(w: KickVote, rest: Seq<u8>) {
        let e1 = <u8 as Writeable>::enc_v(w.car_id);
        let e2 = <u8 as Writeable>::enc_v(w.unknown2);
        let r2 = rest;
        let r1 = e2 + r2;
        let s = Self::enc_v(w) + rest;
        assert(s =~= e1 + r1);
        <u8 as Readable>::lemma_dec_complete(w.car_id, r1);
        lemma_skip_concat(e1, r1);
        <u8 as Readable>::lemma_dec_complete(w.unknown2, r2);
        lemma_skip_concat(e2, r2);
        lemma_skip_skip(s, (e1.len()) as int, e2.len() as int);
    }

    fn read(buf: &[u8], pos: &mut usize) -> (r: Result<KickVote, Error>) {
        let ghost s = buf@.skip(*pos as int);
        let ghost p0 = *pos;
        let f_car_id = match <u8 as Readable>::read(buf, pos) {
            Ok(v) => v,
            Err(e) => {
                return Err(e);
            },
        };
        assert(buf@.skip(*pos as int) =~= s.skip(*pos - p0));
        let f_unknown2 = match <u8 as Readable>::read(buf, pos) {
            Ok(v) => v,
            Err(e) => {
                return Err(e);
            },
        };
        let v = KickVote { car_id: f_car_id, unknown2: f_unknown2 };
        Ok(v)
    }
}

/// The motion snapshot a client sends over the datagram channel: its
/// position, rotation and velocity, the tyre and control state, and a
/// sequence byte passed through to peers.
#[derive(Debug, Clone, Copy, PartialEq, Eq, Structural)]
pub struct CarUpdate {
    pub pak_sequence_id: u8,
    pub timestamp: u32,
    pub pos: Vec3f,
    pub rotation: Vec3f,
    pub velocity: Vec3f,
    pub tyre_angular_speed: u8,
    pub tyre_angular_speed1: u8,
    pub tyre_angular_speed2: u8,
    pub tyre_angular_speed3: u8,
    pub steer_angle: u8,
    pub wheel_angle: u8,
    pub engine_rpm: u16,
    pub gear: u8,
    pub status: u32,
    pub performance_delta: i16,
    pub gas: u8,
    pub normalized_pos: F32,
}

impl View for CarUpdate {
    type V = CarUpdate;

    open spec fn view(&self) -> CarUpdate {
        *self
    }
}

impl Writeable for CarUpdate {
    open spec fn wf_v(w: CarUpdate) -> bool {
        true
    }

    open spec fn enc_v(w: CarUpdate) -> Seq<u8> {
        <u8 as Writeable>::enc_v(w.pak_sequence_id) + <u32 as Writeable>::enc_v(w.timestamp) + <Vec3f as Writeable>::enc_v(w.pos) + <Vec3f as Writeable>::enc_v(w.rotation) + <Vec3f as Writeable>::enc_v(w.velocity) + <u8 as Writeable>::enc_v(w.tyre_angular_speed) + <u8 as Writeable>::enc_v(w.tyre_angular_speed1) + <u8 as Writeable>::enc_v(w.tyre_angular_speed2) + <u8 as Writeable>::enc_v(w.tyre_angular_speed3) + <u8 as Writeable>::enc_v(w.steer_angle) + <u8 as Writeable>::enc_v(w.wheel_angle) + <u16 as Writeable>::enc_v(w.engine_rpm) + <u8 as Writeable>::enc_v(w.gear) + <u32 as Writeable>::enc_v(w.status) + <i16 as Writeable>::enc_v(w.performance_delta) + <u8 as Writeable>::enc_v(w.gas) + <F32 as Writeable>::enc_v(w.normalized_pos)
    }

    #[verifier::rlimit(100)]
    #[verifier::spinoff_prover]
    fn write(&self, buffer: &mut Vec<u8>) {
        self.pak_sequence_id.write(buffer);
        self.timestamp.write(buffer);
        self.pos.write(buffer);
        self.rotation.write(buffer);
        self.velocity.write(buffer);
        self.tyre_angular_speed.write(buffer);
        self.tyre_angular_speed1.write(buffer);
        self.tyre_angular_speed2.write(buffer);
        self.tyre_angular_speed3.write(buffer);
        self.steer_angle.write(buffer);
        self.wheel_angle.write(buffer);
        self.engine_rpm.write(buffer);
        self.gear.write(buffer);
        self.status.write(buffer);
        self.performance_delta.write(buffer);
        self.gas.write(buffer);
        self.normalized_pos.write(buffer);
        assert(buffer@ =~= old(buffer)@ + Self::enc_v(self@));
    }
}

impl Readable for CarUpdate {
    open spec fn dec_v(s: Seq<u8>) -> Option<(CarUpdate, int)> {
        match <u8 as Readable>::dec_v(s) {
            None => None,
            Some((pak_sequence_id, n1)) => 
            match <u32 as Readable>::dec_v(s.skip(n1)) {
                None => None,
                Some((timestamp, n2)) => 
                match <Vec3f as Readable>::dec_v(s.skip(n1 + n2)) {
                    None => None,
                    Some((pos, n3)) => 
                    match <Vec3f as Readable>::dec_v(s.skip(n1 + n2 + n3)) {
                        None => None,
                        Some((rotation, n4)) => 
                        match <Vec3f as Readable>::dec_v(s.skip(n1 + n2 + n3 + n4)) {
                            None => None,
                            Some((velocity, n5)) => 
                            match <u8 as Readable>::dec_v(s.skip(n1 + n2 + n3 + n4 + n5)) {
                                None => None,
                                Some((tyre_angular_speed, n6)) => 
                                match <u8 as Readable>::dec_v(s.skip(n1 + n2 + n3 + n4 + n5 + n6)) {
                                    None => None,
                                    Some((tyre_angular_speed1, n7)) => 
                                    match <u8 as Readable>::dec_v(s.skip(n1 + n2 + n3 + n4 + n5 + n6 + n7)) {
                                        None => None,
                                        Some((tyre_angular_speed2, n8)) => 
                                        match <u8 as Readable>::dec_v(s.skip(n1 + n2 + n3 + n4 + n5 + n6 + n7 + n8)) {
                                            None => None,
                                            Some((tyre_angular_speed3, n9)) => 
                                            match <u8 as Readable>::dec_v(s.skip(n1 + n2 + n3 + n4 + n5 + n6 + n7 + n8 + n9)) {
                                                None => None,
                                                Some((steer_angle, n10)) => 
                                                match <u8 as Readable>::dec_v(s.skip(n1 + n2 + n3 + n4 + n5 + n6 + n7 + n8 + n9 + n10)) {
                                                    None => None,
                                                    Some((wheel_angle, n11)) => 
                                                    match <u16 as Readable>::dec_v(s.skip(n1 + n2 + n3 + n4 + n5 + n6 + n7 + n8 + n9 + n10 + n11)) {
                                                        None => None,
                                                        Some((engine_rpm, n12)) => 
                                                        match <u8 as Readable>::dec_v(s.skip(n1 + n2 + n3 + n4 + n5 + n6 + n7 + n8 + n9 + n10 + n11 + n12)) {
                                                            None => None,
                                                            Some((gear, n13)) => 
                                                            match <u32 as Readable>::dec_v(s.skip(n1 + n2 + n3 + n4 + n5 + n6 + n7 + n8 + n9 + n10 + n11 + n12 + n13)) {
                                                                None => None,
                                                                Some((status, n14)) => 
                                                                match <i16 as Readable>::dec_v(s.skip(n1 + n2 + n3 + n4 + n5 + n6 + n7 + n8 + n9 + n10 + n11 + n12 + n13 + n14)) {
                                                                    None => None,
                                                                    Some((performance_delta, n15)) => 
                                                                    match <u8 as Readable>::dec_v(s.skip(n1 + n2 + n3 + n4 + n5 + n6 + n7 + n8 + n9 + n10 + n11 + n12 + n13 + n14 + n15)) {
                                                                        None => None,
                                                                        Some((gas, n16)) => 
                                                                        match <F32 as Readable>::dec_v(s.skip(n1 + n2 + n3 + n4 + n5 + n6 + n7 + n8 + n9 + n10 + n11 + n12 + n13 + n14 + n15 + n16)) {
                                                                            None => None,
                                                                            Some((normalized_pos, n17)) => Some((CarUpdate { pak_sequence_id, timestamp, pos, rotation, velocity, tyre_angular_speed, tyre_angular_speed1, tyre_angular_speed2, tyre_angular_speed3, steer_angle, wheel_angle, engine_rpm, gear, status, performance_delta, gas, normalized_pos }, n1 + n2 + n3 + n4 + n5 + n6 + n7 + n8 + n9 + n10 + n11 + n12 + n13 + n14 + n15 + n16 + n17)),
                                                                        },
                                                                    },
                                                                },
                                                            },
                                                        },
                                                    },
                                                },
                                            },
                                        },
                                    },
                                },
                            },
                        },
                    },
                },
            },
        }
    }

    open spec fn reads_to_end() -> bool {
        false
    }

    #[verifier::rlimit(100)]
    #[verifier::spinoff_prover]
    proof fn lemma_dec_sound(s: Seq<u8>) {
        <u8 as Readable>::lemma_dec_sound(s);
        if let Some((pak_sequence_id, n1)) = <u8 as Readable>::dec_v(s) {
            <u32 as Readable>::lemma_dec_sound(s.skip(n1));
            if let Some((timestamp, n2)) = <u32 as Readable>::dec_v(s.skip(n1)) {
                <Vec3f as Readable>::lemma_dec_sound(s.skip(n1 + n2));
                if let Some((pos, n3)) = <Vec3f as Readable>::dec_v(s.skip(n1 + n2)) {
                    <Vec3f as Readable>::lemma_dec_sound(s.skip(n1 + n2 + n3));
                    if let Some((rotation, n4)) = <Vec3f as Readable>::dec_v(s.skip(n1 + n2 + n3)) {
                        <Vec3f as Readable>::lemma_dec_sound(s.skip(n1 + n2 + n3 + n4));
                        if let Some((velocity, n5)) = <Vec3f as Readable>::dec_v(s.skip(n1 + n2 + n3 + n4)) {
                            <u8 as Readable>::lemma_dec_sound(s.skip(n1 + n2 + n3 + n4 + n5));
                            if let Some((tyre_angular_speed, n6)) = <u8 as Readable>::dec_v(s.skip(n1 + n2 + n3 + n4 + n5)) {
                                <u8 as Readable>::lemma_dec_sound(s.skip(n1 + n2 + n3 + n4 + n5 + n6));
                                if let Some((tyre_angular_speed1, n7)) = <u8 as Readable>::dec_v(s.skip(n1 + n2 + n3 + n4 + n5 + n6)) {
                                    <u8 as Readable>::lemma_dec_sound(s.skip(n1 + n2 + n3 + n4 + n5 + n6 + n7));
                                    if let Some((tyre_angular_speed2, n8)) = <u8 as Readable>::dec_v(s.skip(n1 + n2 + n3 + n4 + n5 + n6 + n7)) {
                                        <u8 as Readable>::lemma_dec_sound(s.skip(n1 + n2 + n3 + n4 + n5 + n6 + n7 + n8));
                                        if let Some((tyre_angular_speed3, n9)) = <u8 as Readable>::dec_v(s.skip(n1 + n2 + n3 + n4 + n5 + n6 + n7 + n8)) {
                                            <u8 as Readable>::lemma_dec_sound(s.skip(n1 + n2 + n3 + n4 + n5 + n6 + n7 + n8 + n9));
                                            if let Some((steer_angle, n10)) = <u8 as Readable>::dec_v(s.skip(n1 + n2 + n3 + n4 + n5 + n6 + n7 + n8 + n9)) {
                                                <u8 as Readable>::lemma_dec_sound(s.skip(n1 + n2 + n3 + n4 + n5 + n6 + n7 + n8 + n9 + n10));
                                                if let Some((wheel_angle, n11)) = <u8 as Readable>::dec_v(s.skip(n1 + n2 + n3 + n4 + n5 + n6 + n7 + n8 + n9 + n10)) {
                                                    <u16 as Readable>::lemma_dec_sound(s.skip(n1 + n2 + n3 + n4 + n5 + n6 + n7 + n8 + n9 + n10 + n11));
                                                    if let Some((engine_rpm, n12)) = <u16 as Readable>::dec_v(s.skip(n1 + n2 + n3 + n4 + n5 + n6 + n7 + n8 + n9 + n10 + n11)) {
                                                        <u8 as Readable>::lemma_dec_sound(s.skip(n1 + n2 + n3 + n4 + n5 + n6 + n7 + n8 + n9 + n10 + n11 + n12));
                                                        if let Some((gear, n13)) = <u8 as Readable>::dec_v(s.skip(n1 + n2 + n3 + n4 + n5 + n6 + n7 + n8 + n9 + n10 + n11 + n12)) {
                                                            <u32 as Readable>::lemma_dec_sound(s.skip(n1 + n2 + n3 + n4 + n5 + n6 + n7 + n8 + n9 + n10 + n11 + n12 + n13));
                                                            if let Some((status, n14)) = <u32 as Readable>::dec_v(s.skip(n1 + n2 + n3 + n4 + n5 + n6 + n7 + n8 + n9 + n10 + n11 + n12 + n13)) {
                                                                <i16 as Readable>::lemma_dec_sound(s.skip(n1 + n2 + n3 + n4 + n5 + n6 + n7 + n8 + n9 + n10 + n11 + n12 + n13 + n14));
                                                                if let Some((performance_delta, n15)) = <i16 as Readable>::dec_v(s.skip(n1 + n2 + n3 + n4 + n5 + n6 + n7 + n8 + n9 + n10 + n11 + n12 + n13 + n14)) {
                                                                    <u8 as Readable>::lemma_dec_sound(s.skip(n1 + n2 + n3 + n4 + n5 + n6 + n7 + n8 + n9 + n10 + n11 + n12 + n13 + n14 + n15));
                                                                    if let Some((gas, n16)) = <u8 as Readable>::dec_v(s.skip(n1 + n2 + n3 + n4 + n5 + n6 + n7 + n8 + n9 + n10 + n11 + n12 + n13 + n14 + n15)) {
                                                                        <F32 as Readable>::lemma_dec_sound(s.skip(n1 + n2 + n3 + n4 + n5 + n6 + n7 + n8 + n9 + n10 + n11 + n12 + n13 + n14 + n15 + n16));
                                                                        if let Some((normalized_pos, n17)) = <F32 as Readable>::dec_v(s.skip(n1 + n2 + n3 + n4 + n5 + n6 + n7 + n8 + n9 + n10 + n11 + n12 + n13 + n14 + n15 + n16)) {
                                                                            assert(s.take(n1) + s.skip(n1).take(n2) =~= s.take(n1 + n2));
                                                                            assert(s.take(n1 + n2) + s.skip(n1 + n2).take(n3) =~= s.take(n1 + n2 + n3));
                                                                            assert(s.take(n1 + n2 + n3) + s.skip(n1 + n2 + n3).take(n4) =~= s.take(n1 + n2 + n3 + n4));
                                                                            assert(s.take(n1 + n2 + n3 + n4) + s.skip(n1 + n2 + n3 + n4).take(n5) =~= s.take(n1 + n2 + n3 + n4 + n5));
                                                                            assert(s.take(n1 + n2 + n3 + n4 + n5) + s.skip(n1 + n2 + n3 + n4 + n5).take(n6) =~= s.take(n1 + n2 + n3 + n4 + n5 + n6));
                                                                            assert(s.take(n1 + n2 + n3 + n4 + n5 + n6) + s.skip(n1 + n2 + n3 + n4 + n5 + n6).take(n7) =~= s.take(n1 + n2 + n3 + n4 + n5 + n6 + n7));
                                                                            assert(s.take(n1 + n2 + n3 + n4 + n5 + n6 + n7) + s.skip(n1 + n2 + n3 + n4 + n5 + n6 + n7).take(n8) =~= s.take(n1 + n2 + n3 + n4 + n5 + n6 + n7 + n8));
                                                                            assert(s.take(n1 + n2 + n3 + n4 + n5 + n6 + n7 + n8) + s.skip(n1 + n2 + n3 + n4 + n5 + n6 + n7 + n8).take(n9) =~= s.take(n1 + n2 + n3 + n4 + n5 + n6 + n7 + n8 + n9));
                                                                            assert(s.take(n1 + n2 + n3 + n4 + n5 + n6 + n7 + n8 + n9) + s.skip(n1 + n2 + n3 + n4 + n5 + n6 + n7 + n8 + n9).take(n10) =~= s.take(n1 + n2 + n3 + n4 + n5 + n6 + n7 + n8 + n9 + n10));
                                                                            assert(s.take(n1 + n2 + n3 + n4 + n5 + n6 + n7 + n8 + n9 + n10) + s.skip(n1 + n2 + n3 + n4 + n5 + n6 + n7 + n8 + n9 + n10).take(n11) =~= s.take(n1 + n2 + n3 + n4 + n5 + n6 + n7 + n8 + n9 + n10 + n11));
                                                                            assert(s.take(n1 + n2 + n3 + n4 + n5 + n6 + n7 + n8 + n9 + n10 + n11) + s.skip(n1 + n2 + n3 + n4 + n5 + n6 + n7 + n8 + n9 + n10 + n11).take(n12) =~= s.take(n1 + n2 + n3 + n4 + n5 + n6 + n7 + n8 + n9 + n10 + n11 + n12));
                                                                            assert(s.take(n1 + n2 + n3 + n4 + n5 + n6 + n7 + n8 + n9 + n10 + n11 + n12) + s.skip(n1 + n2 + n3 + n4 + n5 + n6 + n7 + n8 + n9 + n10 + n11 + n12).take(n13) =~= s.take(n1 + n2 + n3 + n4 + n5 + n6 + n7 + n8 + n9 + n10 + n11 + n12 + n13));
                                                                            assert(s.take(n1 + n2 + n3 + n4 + n5 + n6 + n7 + n8 + n9 + n10 + n11 + n12 + n13) + s.skip(n1 + n2 + n3 + n4 + n5 + n6 + n7 + n8 + n9 + n10 + n11 + n12 + n13).take(n14) =~= s.take(n1 + n2 + n3 + n4 + n5 + n6 + n7 + n8 + n9 + n10 + n11 + n12 + n13 + n14));
                                                                            assert(s.take(n1 + n2 + n3 + n4 + n5 + n6 + n7 + n8 + n9 + n10 + n11 + n12 + n13 + n14) + s.skip(n1 + n2 + n3 + n4 + n5 + n6 + n7 + n8 + n9 + n10 + n11 + n12 + n13 + n14).take(n15) =~= s.take(n1 + n2 + n3 + n4 + n5 + n6 + n7 + n8 + n9 + n10 + n11 + n12 + n13 + n14 + n15));
                                                                            assert(s.take(n1 + n2 + n3 + n4 + n5 + n6 + n7 + n8 + n9 + n10 + n11 + n12 + n13 + n14 + n15) + s.skip(n1 + n2 + n3 + n4 + n5 + n6 + n7 + n8 + n9 + n10 + n11 + n12 + n13 + n14 + n15).take(n16) =~= s.take(n1 + n2 + n3 + n4 + n5 + n6 + n7 + n8 + n9 + n10 + n11 + n12 + n13 + n14 + n15 + n16));
                                                                            assert(s.take(n1 + n2 + n3 + n4 + n5 + n6 + n7 + n8 + n9 + n10 + n11 + n12 + n13 + n14 + n15 + n16) + s.skip(n1 + n2 + n3 + n4 + n5 + n6 + n7 + n8 + n9 + n10 + n11 + n12 + n13 + n14 + n15 + n16).take(n17) =~= s.take(n1 + n2 + n3 + n4 + n5 + n6 + n7 + n8 + n9 + n10 + n11 + n12 + n13 + n14 + n15 + n16 + n17));
                                                                        }
                                                                    }
                                                                }
                                                            }
                                                        }
                                                    }
                                                }
                                            }
                                        }
                                    }
                                }
                            }
                        }
                    }
                }
            }
        }
    }

    #[verifier::rlimit(100)]
    #[verifier::spinoff_prover]
    proof fn lemma_dec_complete(w: CarUpdate, rest: Seq<u8>) {
        let e1 = <u8 as Writeable>::enc_v(w.pak_sequence_id);
        let e2 = <u32 as Writeable>::enc_v(w.timestamp);
        let e3 = <Vec3f as Writeable>::enc_v(w.pos);
        let e4 = <Vec3f as Writeable>::enc_v(w.rotation);
        let e5 = <Vec3f as Writeable>::enc_v(w.velocity);
        let e6 = <u8 as Writeable>::enc_v(w.tyre_angular_speed);
        let e7 = <u8 as Writeable>::enc_v(w.tyre_angular_speed1);
        let e8 = <u8 as Writeable>::enc_v(w.tyre_angular_speed2);
        let e9 = <u8 as Writeable>::enc_v(w.tyre_angular_speed3);
        let e10 = <u8 as Writeable>::enc_v(w.steer_angle);
        let e11 = <u8 as Writeable>::enc_v(w.wheel_angle);
        let e12 = <u16 as Writeable>::enc_v(w.engine_rpm);
        let e13 = <u8 as Writeable>::enc_v(w.gear);
        let e14 = <u32 as Writeable>::enc_v(w.status);
        let e15 = <i16 as Writeable>::enc_v(w.performance_delta);
        let e16 = <u8 as Writeable>::enc_v(w.gas);
        let e17 = <F32 as Writeable>::enc_v(w.normalized_pos);
        let r17 = rest;
        let r16 = e17 + r17;
        let r15 = e16 + r16;
        let r14 = e15 + r15;
        let r13 = e14 + r14;
        let r12 = e13 + r13;
        let r11 = e12 + r12;
        let r10 = e11 + r11;
        let r9 = e10 + r10;
        let r8 = e9 + r9;
        let r7 = e8 + r8;
        let r6 = e7 + r7;
        let r5 = e6 + r6;
        let r4 = e5 + r5;
        let r3 = e4 + r4;
        let r2 = e3 + r3;
        let r1 = e2 + r2;
        let s = Self::enc_v(w) + rest;
        assert(s =~= e1 + r1);
        <u8 as Readable>::lemma_dec_complete(w.pak_sequence_id, r1);
        lemma_skip_concat(e1, r1);
        <u32 as Readable>::lemma_dec_complete(w.timestamp, r2);
        lemma_skip_concat(e2, r2);
        lemma_skip_skip(s, (e1.len()) as int, e2.len() as int);
        <Vec3f as Readable>::lemma_dec_complete(w.pos, r3);
        lemma_skip_concat(e3, r3);
        lemma_skip_skip(s, (e1.len() + e2.len()) as int, e3.len() as int);
        <Vec3f as Readable>::lemma_dec_complete(w.rotation, r4);
        lemma_skip_concat(e4, r4);
        lemma_skip_skip(s, (e1.len() + e2.len() + e3.len()) as int, e4.len() as int);
        <Vec3f as Readable>::lemma_dec_complete(w.velocity, r5);
        lemma_skip_concat(e5, r5);
        lemma_skip_skip(s, (e1.len() + e2.len() + e3.len() + e4.len()) as int, e5.len() as int);
        <u8 as Readable>::lemma_dec_complete(w.tyre_angular_speed, r6);
        lemma_skip_concat(e6, r6);
        lemma_skip_skip(s, (e1.len() + e2.len() + e3.len() + e4.len() + e5.len()) as int, e6.len() as int);
        <u8 as Readable>::lemma_dec_complete(w.tyre_angular_speed1, r7);
        lemma_skip_concat(e7, r7);
        lemma_skip_skip(s, (e1.len() + e2.len() + e3.len() + e4.len() + e5.len() + e6.len()) as int, e7.len() as int);
        <u8 as Readable>::lemma_dec_complete(w.tyre_angular_speed2, r8);
        lemma_skip_concat(e8, r8);
        lemma_skip_skip(s, (e1.len() + e2.len() + e3.len() + e4.len() + e5.len() + e6.len() + e7.len()) as int, e8.len() as int);
        <u8 as Readable>::lemma_dec_complete(w.tyre_angular_speed3, r9);
        lemma_skip_concat(e9, r9);
        lemma_skip_skip(s, (e1.len() + e2.len() + e3.len() + e4.len() + e5.len() + e6.len() + e7.len() + e8.len()) as int, e9.len() as int);
        <u8 as Readable>::lemma_dec_complete(w.steer_angle, r10);
        lemma_skip_concat(e10, r10);
        lemma_skip_skip(s, (e1.len() + e2.len() + e3.len() + e4.len() + e5.len() + e6.len() + e7.len() + e8.len() + e9.len()) as int, e10.len() as int);
        <u8 as Readable>::lemma_dec_complete(w.wheel_angle, r11);
        lemma_skip_concat(e11, r11);
        lemma_skip_skip(s, (e1.len() + e2.len() + e3.len() + e4.len() + e5.len() + e6.len() + e7.len() + e8.len() + e9.len() + e10.len()) as int, e11.len() as int);
        <u16 as Readable>::lemma_dec_complete(w.engine_rpm, r12);
        lemma_skip_concat(e12, r12);
        lemma_skip_skip(s, (e1.len() + e2.len() + e3.len() + e4.len() + e5.len() + e6.len() + e7.len() + e8.len() + e9.len() + e10.len() + e11.len()) as int, e12.len() as int);
        <u8 as Readable>::lemma_dec_complete(w.gear, r13);
        lemma_skip_concat(e13, r13);
        lemma_skip_skip(s, (e1.len() + e2.len() + e3.len() + e4.len() + e5.len() + e6.len() + e7.len() + e8.len() + e9.len() + e10.len() + e11.len() + e12.len()) as int, e13.len() as int);
        <u32 as Readable>::lemma_dec_complete(w.status, r14);
        lemma_skip_concat(e14, r14);
        lemma_skip_skip(s, (e1.len() + e2.len() + e3.len() + e4.len() + e5.len() + e6.len() + e7.len() + e8.len() + e9.len() + e10.len() + e11.len() + e12.len() + e13.len()) as int, e14.len() as int);
        <i16 as Readable>::lemma_dec_complete(w.performance_delta, r15);
        lemma_skip_concat(e15, r15);
        lemma_skip_skip(s, (e1.len() + e2.len() + e3.len() + e4.len() + e5.len() + e6.len() + e7.len() + e8.len() + e9.len() + e10.len() + e11.len() + e12.len() + e13.len() + e14.len()) as int, e15.len() as int);
        <u8 as Readable>::lemma_dec_complete(w.gas, r16);
        lemma_skip_concat(e16, r16);
        lemma_skip_skip(s, (e1.len() + e2.len() + e3.len() + e4.len() + e5.len() + e6.len() + e7.len() + e8.len() + e9.len() + e10.len() + e11.len() + e12.len() + e13.len() + e14.len() + e15.len()) as int, e16.len() as int);
        <F32 as Readable>::lemma_dec_complete(w.normalized_pos, r17);
        lemma_skip_concat(e17, r17);
        lemma_skip_skip(s, (e1.len() + e2.len() + e3.len() + e4.len() + e5.len() + e6.len() + e7.len() + e8.len() + e9.len() + e10.len() + e11.len() + e12.len() + e13.len() + e14.len() + e15.len() + e16.len()) as int, e17.len() as int);
    }

    #[verifier::rlimit(100)]
    #[verifier::spinoff_prover]
    fn read(buf: &[u8], pos: &mut usize) -> (r: Result<CarUpdate, Error>) {
        let ghost s = buf@.skip(*pos as int);
        let ghost p0 = *pos;
        let f_pak_sequence_id = match <u8 as Readable>::read(buf, pos) {
            Ok(v) => v,
            Err(e) => {
                return Err(e);
            },
        };
        assert(buf@.skip(*pos as int) =~= s.skip(*pos - p0));
        let f_timestamp = match <u32 as Readable>::read(buf, pos) {
            Ok(v) => v,
            Err(e) => {
                return Err(e);
            },
        };
        assert(buf@.skip(*pos as int) =~= s.skip(*pos - p0));
        let f_pos = match <Vec3f as Readable>::read(buf, pos) {
            Ok(v) => v,
            Err(e) => {
                return Err(e);
            },
        };
        assert(buf@.skip(*pos as int) =~= s.skip(*pos - p0));
        let f_rotation = match <Vec3f as Readable>::read(buf, pos) {
            Ok(v) => v,
            Err(e) => {
                return Err(e);
            },
        };
        assert(buf@.skip(*pos as int) =~= s.skip(*pos - p0));
        let f_velocity = match <Vec3f as Readable>::read(buf, pos) {
            Ok(v) => v,
            Err(e) => {
                return Err(e);
            },
        };
        assert(buf@.skip(*pos as int) =~= s.skip(*pos - p0));
        let f_tyre_angular_speed = match <u8 as Readable>::read(buf, pos) {
            Ok(v) => v,
            Err(e) => {
                return Err(e);
            },
        };
        assert(buf@.skip(*pos as int) =~= s.skip(*pos - p0));
        let f_tyre_angular_speed1 = match <u8 as Readable>::read(buf, pos) {
            Ok(v) => v,
            Err(e) => {
                return Err(e);
            },
        };
        assert(buf@.skip(*pos as int) =~= s.skip(*pos - p0));
        let f_tyre_angular_speed2 = match <u8 as Readable>::read(buf, pos) {
            Ok(v) => v,
            Err(e) => {
                return Err(e);
            },
        };
        assert(buf@.skip(*pos as int) =~= s.skip(*pos - p0));
        let f_tyre_angular_speed3 = match <u8 as Readable>::read(buf, pos) {
            Ok(v) => v,
            Err(e) => {
                return Err(e);
            },
        };
        assert(buf@.skip(*pos as int) =~= s.skip(*pos - p0));
        let f_steer_angle = match <u8 as Readable>::read(buf, pos) {
            Ok(v) => v,
            Err(e) => {
                return Err(e);
            },
        };
        assert(buf@.skip(*pos as int) =~= s.skip(*pos - p0));
        let f_wheel_angle = match <u8 as Readable>::read(buf, pos) {
            Ok(v) => v,
            Err(e) => {
                return Err(e);
            },
        };
        assert(buf@.skip(*pos as int) =~= s.skip(*pos - p0));
        let f_engine_rpm = match <u16 as Readable>::read(buf, pos) {
            Ok(v) => v,
            Err(e) => {
                return Err(e);
            },
        };
        assert(buf@.skip(*pos as int) =~= s.skip(*pos - p0));
        let f_gear = match <u8 as Readable>::read(buf, pos) {
            Ok(v) => v,
            Err(e) => {
                return Err(e);
            },
        };
        assert(buf@.skip(*pos as int) =~= s.skip(*pos - p0));
        let f_status = match <u32 as Readable>::read(buf, pos) {
            Ok(v) => v,
            Err(e) => {
                return Err(e);
            },
        };
        assert(buf@.skip(*pos as int) =~= s.skip(*pos - p0));
        let f_performance_delta = match <i16 as Readable>::read(buf, pos) {
            Ok(v) => v,
            Err(e) => {
                return Err(e);
            },
        };
        assert(buf@.skip(*pos as int) =~= s.skip(*pos - p0));
        let f_gas = match <u8 as Readable>::read(buf, pos) {
            Ok(v) => v,
            Err(e) => {
                return Err(e);
            },
        };
        assert(buf@.skip(*pos as int) =~= s.skip(*pos - p0));
        let f_normalized_pos = match <F32 as Readable>::read(buf, pos) {
            Ok(v) => v,
            Err(e) => {
                return Err(e);
            },
        };
        let v = CarUpdate { pak_sequence_id: f_pak_sequence_id, timestamp: f_timestamp, pos: f_pos, rotation: f_rotation, velocity: f_velocity, tyre_angular_speed: f_tyre_angular_speed, tyre_angular_speed1: f_tyre_angular_speed1, tyre_angular_speed2: f_tyre_angular_speed2, tyre_angular_speed3: f_tyre_angular_speed3, steer_angle: f_steer_angle, wheel_angle: f_wheel_angle, engine_rpm: f_engine_rpm, gear: f_gear, status: f_status, performance_delta: f_performance_delta, gas: f_gas, normalized_pos: f_normalized_pos };
        Ok(v)
    }
}

/// The client asks about a session type over the datagram channel.
#[derive(Debug, Clone, Copy, PartialEq, Eq, Structural)]
pub struct SessionRequest {
    pub session_type: SessionType,
}

impl View for SessionRequest {
    type V = SessionRequest;

    open spec fn view(&self) -> SessionRequest {
        *self
    }
}

impl Writeable for SessionRequest {
    open spec fn wf_v(w: SessionRequest) -> bool {
        true
    }

    open spec fn enc_v(w: SessionRequest) -> Seq<u8> {
        <SessionType as Writeable>::enc_v(w.session_type)
    }

    fn write(&self, buffer: &mut Vec<u8>) {
        self.session_type.write(buffer);
        assert(buffer@ =~= old(buffer)@ + Self::enc_v(self@));
    }
}

impl Readable for SessionRequest {
    open spec fn dec_v(s: Seq<u8>) -> Option<(SessionRequest, int)> {
        match <SessionType as Readable>::dec_v(s) {
            None => None,
            Some((session_type, n1)) => Some((SessionRequest { session_type }, n1)),
        }
    }

    open spec fn reads_to_end() -> bool {
        false
    }

    proof fn lemma_dec_sound(s: Seq<u8>) {
        <SessionType as Readable>::lemma_dec_sound(s);
        if let Some((session_type, n1)) = <SessionType as Readable>::dec_v(s) {
        }
    }

    proof fn lemma_dec_complete(w: SessionRequest, rest: Seq<u8>) {
        let e1 = <SessionType as Writeable>::enc_v(w.session_type);
        let r1 = rest;
        let s = Self::enc_v(w) + rest;
        assert(s =~= e1 + r1);
        <SessionType as Readable>::lemma_dec_complete(w.session_type, r1);
        lemma_skip_concat(e1, r1);
    }

    fn read(buf: &[u8], pos: &mut usize) -> (r: Result<SessionRequest, Error>) {
        let ghost s = buf@.skip(*pos as int);
        let ghost p0 = *pos;
        let f_session_type = match <SessionType as Readable>::read(buf, pos) {
            Ok(v) => v,
            Err(e) => {
                return Err(e);
            },
        };
        let v = SessionRequest { session_type: f_session_type };
        Ok(v)
    }
}

/// Five damage-zone values reported by the client: engine, gearbox,
/// front suspension, steering and rear suspension.
#[derive(Debug, Clone, Copy, PartialEq, Eq, Structural)]
pub struct DamageUpdate {
    pub damage: F32,
    pub damage1: F32,
    pub damage2: F32,
    pub damage3: F32,
    pub damage4: F32,
}

impl View for DamageUpdate {
    type V = DamageUpdate;

    open spec fn view(&self) -> DamageUpdate {
        *self
    }
}

impl Writeable for DamageUpdate {
    open spec fn wf_v(w: DamageUpdate) -> bool {
        true
    }

    open spec fn enc_v(w: DamageUpdate) -> Seq<u8> {
        <F32 as Writeable>::enc_v(w.damage) + <F32 as Writeable>::enc_v(w.damage1) + <F32 as Writeable>::enc_v(w.damage2) + <F32 as Writeable>::enc_v(w.damage3) + <F32 as Writeable>::enc_v(w.damage4)
    }

    fn write(&self, buffer: &mut Vec<u8>) {
        self.damage.write(buffer);
        self.damage1.write(buffer);
        self.damage2.write(buffer);
        self.damage3.write(buffer);
        self.damage4.write(buffer);
        assert(buffer@ =~= old(buffer)@ + Self::enc_v(self@));
    }
}

impl Readable for DamageUpdate {
    open spec fn dec_v(s: Seq<u8>) -> Option<(DamageUpdate, int)> {
        match <F32 as Readable>::dec_v(s) {
            None => None,
            Some((damage, n1)) => 
            match <F32 as Readable>::dec_v(s.skip(n1)) {
                None => None,
                Some((damage1, n2)) => 
                match <F32 as Readable>::dec_v(s.skip(n1 + n2)) {
                    None => None,
                    Some((damage2, n3)) => 
                    match <F32 as Readable>::dec_v(s.skip(n1 + n2 + n3)) {
                        None => None,
                        Some((damage3, n4)) => 
                        match <F32 as Readable>::dec_v(s.skip(n1 + n2 + n3 + n4)) {
                            None => None,
                            Some((damage4, n5)) => Some((DamageUpdate { damage, damage1, damage2, damage3, damage4 }, n1 + n2 + n3 + n4 + n5)),
                        },
                    },
                },
            },
        }
    }

    open spec fn reads_to_end() -> bool {
        false
    }

    proof fn lemma_dec_sound(s: Seq<u8>) {
        <F32 as Readable>::lemma_dec_sound(s);
        if let Some((damage, n1)) = <F32 as Readable>::dec_v(s) {
            <F32 as Readable>::lemma_dec_sound(s.skip(n1));
            if let Some((damage1, n2)) = <F32 as Readable>::dec_v(s.skip(n1)) {
                <F32 as Readable>::lemma_dec_sound(s.skip(n1 + n2));
                if let Some((damage2, n3)) = <F32 as Readable>::dec_v(s.skip(n1 + n2)) {
                    <F32 as Readable>::lemma_dec_sound(s.skip(n1 + n2 + n3));
                    if let Some((damage3, n4)) = <F32 as Readable>::dec_v(s.skip(n1 + n2 + n3)) {
                        <F32 as Readable>::lemma_dec_sound(s.skip(n1 + n2 + n3 + n4));
                        if let Some((damage4, n5)) = <F32 as Readable>::dec_v(s.skip(n1 + n2 + n3 + n4)) {
                            assert(s.take(n1) + s.skip(n1).take(n2) =~= s.take(n1 + n2));
                            assert(s.take(n1 + n2) + s.skip(n1 + n2).take(n3) =~= s.take(n1 + n2 + n3));
                            assert(s.take(n1 + n2 + n3) + s.skip(n1 + n2 + n3).take(n4) =~= s.take(n1 + n2 + n3 + n4));
                            assert(s.take(n1 + n2 + n3 + n4) + s.skip(n1 + n2 + n3 + n4).take(n5) =~= s.take(n1 + n2 + n3 + n4 + n5));
                        }
                    }
                }
            }
        }
    }

    proof fn lemma_dec_complete(w: DamageUpdate, rest: Seq<u8>) {
        let e1 = <F32 as Writeable>::enc_v(w.damage);
        let e2 = <F32 as Writeable>::enc_v(w.damage1);
        let e3 = <F32 as Writeable>::enc_v(w.damage2);
        let e4 = <F32 as Writeable>::enc_v(w.damage3);
        let e5 = <F32 as Writeable>::enc_v(w.damage4);
        let r5 = rest;
        let r4 = e5 + r5;
        let r3 = e4 + r4;
        let r2 = e3 + r3;
        let r1 = e2 + r2;
        let s = Self::enc_v(w) + rest;
        assert(s =~= e1 + r1);
        <F32 as Readable>::lemma_dec_complete(w.damage, r1);
        lemma_skip_concat(e1, r1);
        <F32 as Readable>::lemma_dec_complete(w.damage1, r2);
        lemma_skip_concat(e2, r2);
        lemma_skip_skip(s, (e1.len()) as int, e2.len() as int);
        <F32 as Readable>::lemma_dec_complete(w.damage2, r3);
        lemma_skip_concat(e3, r3);
        lemma_skip_skip(s, (e1.len() + e2.len()) as int, e3.len() as int);
        <F32 as Readable>::lemma_dec_complete(w.damage3, r4);
        lemma_skip_concat(e4, r4);
        lemma_skip_skip(s, (e1.len() + e2.len() + e3.len()) as int, e4.len() as int);
        <F32 as Readable>::lemma_dec_complete(w.damage4, r5);
        lemma_skip_concat(e5, r5);
        lemma_skip_skip(s, (e1.len() + e2.len() + e3.len() + e4.len()) as int, e5.len() as int);
    }

    fn read(buf: &[u8], pos: &mut usize) -> (r: Result<DamageUpdate, Error>) {
        let ghost s = buf@.skip(*pos as int);
        let ghost p0 = *pos;
        let f_damage = match <F32 as Readable>::read(buf, pos) {
            Ok(v) => v,
            Err(e) => {
                return Err(e);
            },
        };
        assert(buf@.skip(*pos as int) =~= s.skip(*pos - p0));
        let f_damage1 = match <F32 as Readable>::read(buf, pos) {
            Ok(v) => v,
            Err(e) => {
                return Err(e);
            },
        };
        assert(buf@.skip(*pos as int) =~= s.skip(*pos - p0));
        let f_damage2 = match <F32 as Readable>::read(buf, pos) {
            Ok(v) => v,
            Err(e) => {
                return Err(e);
            },
        };
        assert(buf@.skip(*pos as int) =~= s.skip(*pos - p0));
        let f_damage3 = match <F32 as Readable>::read(buf, pos) {
            Ok(v) => v,
            Err(e) => {
                return Err(e);
            },
        };
        assert(buf@.skip(*pos as int) =~= s.skip(*pos - p0));
        let f_damage4 = match <F32 as Readable>::read(buf, pos) {
            Ok(v) => v,
            Err(e) => {
                return Err(e);
            },
        };
        let v = DamageUpdate { damage: f_damage, damage1: f_damage1, damage2: f_damage2, damage3: f_damage3, damage4: f_damage4 };
        Ok(v)
    }
}

/// The push-to-pass counter: a count of -1 probes the current value,
/// anything else decrements it.
#[derive(Debug, Clone, Copy, PartialEq, Eq, Structural)]
pub struct P2PCount {
    pub count: i16,
    pub active: bool,
}

impl View for P2PCount {
    type V = P2PCount;

    open spec fn view(&self) -> P2PCount {
        *self
    }
}

impl Writeable for P2PCount {
    open spec fn wf_v(w: P2PCount) -> bool {
        true
    }

    open spec fn enc_v(w: P2PCount) -> Seq<u8> {
        <i16 as Writeable>::enc_v(w.count) + <bool as Writeable>::enc_v(w.active)
    }

    fn write(&self, buffer: &mut Vec<u8>) {
        self.count.write(buffer);
        self.active.write(buffer);
        assert(buffer@ =~= old(buffer)@ + Self::enc_v(self@));
    }
}

impl Readable for P2PCount {
    open spec fn dec_v(s: Seq<u8>) -> Option<(P2PCount, int)> {
        match <i16 as Readable>::dec_v(s) {
            None => None,
            Some((count, n1)) => 
            match <bool as Readable>::dec_v(s.skip(n1)) {
                None => None,
                Some((active, n2)) => Some((P2PCount { count, active }, n1 + n2)),
            },
        }
    }

    open spec fn reads_to_end() -> bool {
        false
    }

    proof fn lemma_dec_sound(s: Seq<u8>) {
        <i16 as Readable>::lemma_dec_sound(s);
        if let Some((count, n1)) = <i16 as Readable>::dec_v(s) {
            <bool as Readable>::lemma_dec_sound(s.skip(n1));
            if let Some((active, n2)) = <bool as Readable>::dec_v(s.skip(n1)) {
                assert(s.take(n1) + s.skip(n1).take(n2) =~= s.take(n1 + n2));
            }
        }
    }

    proof fn lemma_dec_complete(w: P2PCount, rest: Seq<u8>) {
        let e1 = <i16 as Writeable>::enc_v(w.count);
        let e2 = <bool as Writeable>::enc_v(w.active);
        let r2 = rest;
        let r1 = e2 + r2;
        let s = Self::enc_v(w) + rest;
        assert(s =~= e1 + r1);
        <i16 as Readable>::lemma_dec_complete(w.count, r1);
        lemma_skip_concat(e1, r1);
        <bool as Readable>::lemma_dec_complete(w.active, r2);
        lemma_skip_concat(e2, r2);
        lemma_skip_skip(s, (e1.len()) as int, e2.len() as int);
    }

    fn read(buf: &[u8], pos: &mut usize) -> (r: Result<P2PCount, Error>) {
        let ghost s = buf@.skip(*pos as int);
        let ghost p0 = *pos;
        let f_count = match <i16 as Readable>::read(buf, pos) {
            Ok(v) => v,
            Err(e) => {
                return Err(e);
            },
        };
        assert(buf@.skip(*pos as int) =~= s.skip(*pos - p0));
        let f_active = match <bool as Readable>::read(buf, pos) {
            Ok(v) => v,
            Err(e) => {
                return Err(e);
            },
        };
        let v = P2PCount { count: f_count, active: f_active };
        Ok(v)
    }
}

/// The client completed a lap: lap time in milliseconds, sector splits
/// and cut count.
#[derive(Debug, Clone, PartialEq)]
pub struct LapCompleted {
    pub timestamp: u32,
    pub laptime: u32,
    pub splits: Vec<u32>,
    pub cuts: u8,
    pub numlap: u8,
}

/// The mathematical view of [`LapCompleted`].
#[verifier::ext_equal]
pub struct LapCompletedView {
    pub timestamp: u32,
    pub laptime: u32,
    pub splits: Seq<u32>,
    pub cuts: u8,
    pub numlap: u8,
}

impl View for LapCompleted {
    type V = LapCompletedView;

    open spec fn view(&self) -> LapCompletedView {
        LapCompletedView {
            timestamp: self.timestamp,
            laptime: self.laptime,
            splits: views_of(self.splits@),
            cuts: self.cuts,
            numlap: self.numlap,
        }
    }
}

impl Writeable for LapCompleted {
    open spec fn wf_v(w: LapCompletedView) -> bool {
        wf_u8_vec::<u32>(w.splits)
    }

    open spec fn enc_v(w: LapCompletedView) -> Seq<u8> {
        <u32 as Writeable>::enc_v(w.timestamp) + <u32 as Writeable>::enc_v(w.laptime) + enc_u8_vec::<u32>(w.splits) + <u8 as Writeable>::enc_v(w.cuts) + <u8 as Writeable>::enc_v(w.numlap)
    }

    fn write(&self, buffer: &mut Vec<u8>) {
        self.timestamp.write(buffer);
        self.laptime.write(buffer);
        write_u8_vec::<u32>(&self.splits, buffer);
        self.cuts.write(buffer);
        self.numlap.write(buffer);
        assert(buffer@ =~= old(buffer)@ + Self::enc_v(self@));
    }
}

impl Readable for LapCompleted {
    open spec fn dec_v(s: Seq<u8>) -> Option<(LapCompletedView, int)> {
        match <u32 as Readable>::dec_v(s) {
            None => None,
            Some((timestamp, n1)) => 
            match <u32 as Readable>::dec_v(s.skip(n1)) {
                None => None,
                Some((laptime, n2)) => 
                match dec_u8_vec::<u32>(s.skip(n1 + n2)) {
                    None => None,
                    Some((splits, n3)) => 
                    match <u8 as Readable>::dec_v(s.skip(n1 + n2 + n3)) {
                        None => None,
                        Some((cuts, n4)) => 
                        match <u8 as Readable>::dec_v(s.skip(n1 + n2 + n3 + n4)) {
                            None => None,
                            Some((numlap, n5)) => Some((LapCompletedView { timestamp, laptime, splits, cuts, numlap }, n1 + n2 + n3 + n4 + n5)),
                        },
                    },
                },
            },
        }
    }

    open spec fn reads_to_end() -> bool {
        false
    }

    proof fn lemma_dec_sound(s: Seq<u8>) {
        <u32 as Readable>::lemma_dec_sound(s);
        if let Some((timestamp, n1)) = <u32 as Readable>::dec_v(s) {
            <u32 as Readable>::lemma_dec_sound(s.skip(n1));
            if let Some((laptime, n2)) = <u32 as Readable>::dec_v(s.skip(n1)) {
                lemma_dec_u8_vec_sound::<u32>(s.skip(n1 + n2));
                if let Some((splits, n3)) = dec_u8_vec::<u32>(s.skip(n1 + n2)) {
                    <u8 as Readable>::lemma_dec_sound(s.skip(n1 + n2 + n3));
                    if let Some((cuts, n4)) = <u8 as Readable>::dec_v(s.skip(n1 + n2 + n3)) {
                        <u8 as Readable>::lemma_dec_sound(s.skip(n1 + n2 + n3 + n4));
                        if let Some((numlap, n5)) = <u8 as Readable>::dec_v(s.skip(n1 + n2 + n3 + n4)) {
                            assert(s.take(n1) + s.skip(n1).take(n2) =~= s.take(n1 + n2));
                            assert(s.take(n1 + n2) + s.skip(n1 + n2).take(n3) =~= s.take(n1 + n2 + n3));
                            assert(s.take(n1 + n2 + n3) + s.skip(n1 + n2 + n3).take(n4) =~= s.take(n1 + n2 + n3 + n4));
                            assert(s.take(n1 + n2 + n3 + n4) + s.skip(n1 + n2 + n3 + n4).take(n5) =~= s.take(n1 + n2 + n3 + n4 + n5));
                        }
                    }
                }
            }
        }
    }

    proof fn lemma_dec_complete(w: LapCompletedView, rest: Seq<u8>) {
        let e1 = <u32 as Writeable>::enc_v(w.timestamp);
        let e2 = <u32 as Writeable>::enc_v(w.laptime);
        let e3 = enc_u8_vec::<u32>(w.splits);
        let e4 = <u8 as Writeable>::enc_v(w.cuts);
        let e5 = <u8 as Writeable>::enc_v(w.numlap);
        let r5 = rest;
        let r4 = e5 + r5;
        let r3 = e4 + r4;
        let r2 = e3 + r3;
        let r1 = e2 + r2;
        let s = Self::enc_v(w) + rest;
        assert(s =~= e1 + r1);
        <u32 as Readable>::lemma_dec_complete(w.timestamp, r1);
        lemma_skip_concat(e1, r1);
        <u32 as Readable>::lemma_dec_complete(w.laptime, r2);
        lemma_skip_concat(e2, r2);
        lemma_skip_skip(s, (e1.len()) as int, e2.len() as int);
        assert(!<u32 as Readable>::reads_to_end());
        lemma_dec_u8_vec_complete::<u32>(w.splits, r3);
        lemma_skip_concat(e3, r3);
        lemma_skip_skip(s, (e1.len() + e2.len()) as int, e3.len() as int);
        <u8 as Readable>::lemma_dec_complete(w.cuts, r4);
        lemma_skip_concat(e4, r4);
        lemma_skip_skip(s, (e1.len() + e2.len() + e3.len()) as int, e4.len() as int);
        <u8 as Readable>::lemma_dec_complete(w.numlap, r5);
        lemma_skip_concat(e5, r5);
        lemma_skip_skip(s, (e1.len() + e2.len() + e3.len() + e4.len()) as int, e5.len() as int);
    }

    fn read(buf: &[u8], pos: &mut usize) -> (r: Result<LapCompleted, Error>) {
        let ghost s = buf@.skip(*pos as int);
        let ghost p0 = *pos;
        let f_timestamp = match <u32 as Readable>::read(buf, pos) {
            Ok(v) => v,
            Err(e) => {
                return Err(e);
            },
        };
        assert(buf@.skip(*pos as int) =~= s.skip(*pos - p0));
        let f_laptime = match <u32 as Readable>::read(buf, pos) {
            Ok(v) => v,
            Err(e) => {
                return Err(e);
            },
        };
        assert(buf@.skip(*pos as int) =~= s.skip(*pos - p0));
        let f_splits = match read_u8_vec::<u32>(buf, pos) {
            Ok(v) => v,
            Err(e) => {
                return Err(e);
            },
        };
        assert(buf@.skip(*pos as int) =~= s.skip(*pos - p0));
        let f_cuts = match <u8 as Readable>::read(buf, pos) {
            Ok(v) => v,
            Err(e) => {
                return Err(e);
            },
        };
        assert(buf@.skip(*pos as int) =~= s.skip(*pos - p0));
        let f_numlap = match <u8 as Readable>::read(buf, pos) {
            Ok(v) => v,
            Err(e) => {
                return Err(e);
            },
        };
        let v = LapCompleted { timestamp: f_timestamp, laptime: f_laptime, splits: f_splits, cuts: f_cuts, numlap: f_numlap };
        assert(v@ =~= LapCompletedView { timestamp: f_timestamp, laptime: f_laptime, splits: views_of(f_splits@), cuts: f_cuts, numlap: f_numlap });
        Ok(v)
    }
}

/// A chat message from the client.
#[derive(Debug, Clone, PartialEq)]
pub struct Chat {
    pub unknown: u8,
    pub msg: WideString,
}

/// The mathematical view of [`Chat`].
#[verifier::ext_equal]
pub struct ChatView {
    pub unknown: u8,
    pub msg: Seq<u32>,
}

impl View for Chat {
    type V = ChatView;

    open spec fn view(&self) -> ChatView {
        ChatView {
            unknown: self.unknown,
            msg: self.msg@,
        }
    }
}

impl Writeable for Chat {
    open spec fn wf_v(w: ChatView) -> bool {
        <WideString as Writeable>::wf_v(w.msg)
    }

    open spec fn enc_v(w: ChatView) -> Seq<u8> {
        <u8 as Writeable>::enc_v(w.unknown) + <WideString as Writeable>::enc_v(w.msg)
    }

    fn write(&self, buffer: &mut Vec<u8>) {
        self.unknown.write(buffer);
        self.msg.write(buffer);
        assert(buffer@ =~= old(buffer)@ + Self::enc_v(self@));
    }
}

impl Readable for Chat {
    open spec fn dec_v(s: Seq<u8>) -> Option<(ChatView, int)> {
        match <u8 as Readable>::dec_v(s) {
            None => None,
            Some((unknown, n1)) => 
            match <WideString as Readable>::dec_v(s.skip(n1)) {
                None => None,
                Some((msg, n2)) => Some((ChatView { unknown, msg }, n1 + n2)),
            },
        }
    }

    open spec fn reads_to_end() -> bool {
        false
    }

    proof fn lemma_dec_sound(s: Seq<u8>) {
        <u8 as Readable>::lemma_dec_sound(s);
        if let Some((unknown, n1)) = <u8 as Readable>::dec_v(s) {
            <WideString as Readable>::lemma_dec_sound(s.skip(n1));
            if let Some((msg, n2)) = <WideString as Readable>::dec_v(s.skip(n1)) {
                assert(s.take(n1) + s.skip(n1).take(n2) =~= s.take(n1 + n2));
            }
        }
    }

    proof fn lemma_dec_complete(w: ChatView, rest: Seq<u8>) {
        let e1 = <u8 as Writeable>::enc_v(w.unknown);
        let e2 = <WideString as Writeable>::enc_v(w.msg);
        let r2 = rest;
        let r1 = e2 + r2;
        let s = Self::enc_v(w) + rest;
        assert(s =~= e1 + r1);
        <u8 as Readable>::lemma_dec_complete(w.unknown, r1);
        lemma_skip_concat(e1, r1);
        <WideString as Readable>::lemma_dec_complete(w.msg, r2);
        lemma_skip_concat(e2, r2);
        lemma_skip_skip(s, (e1.len()) as int, e2.len() as int);
    }

    fn read(buf: &[u8], pos: &mut usize) -> (r: Result<Chat, Error>) {
        let ghost s = buf@.skip(*pos as int);
        let ghost p0 = *pos;
        let f_unknown = match <u8 as Readable>::read(buf, pos) {
            Ok(v) => v,
            Err(e) => {
                return Err(e);
            },
        };
        assert(buf@.skip(*pos as int) =~= s.skip(*pos - p0));
        let f_msg = match <WideString as Readable>::read(buf, pos) {
            Ok(v) => v,
            Err(e) => {
                return Err(e);
            },
        };
        let v = Chat { unknown: f_unknown, msg: f_msg };
        assert(v@ =~= ChatView { unknown: f_unknown, msg: f_msg@ });
        Ok(v)
    }
}

/// One collision event: its kind, the other car when the collision was
/// with a car, and the impact speed and positions.  The other-car byte is
/// present exactly when the collision was with a car.
#[derive(Debug, Clone, Copy, PartialEq, Eq)]
pub struct EventS {
    pub event_type: CollisionType,
    pub other_car: Option<u8>,
    pub impact_speed: F32,
    pub world_pos: Vec3f,
    pub real_pos: Vec3f,
}

impl View for EventS {
    type V = EventS;

    open spec fn view(&self) -> EventS {
        *self
    }
}

impl Writeable for EventS {
    open spec fn wf_v(w: EventS) -> bool {
        (w.event_type == CollisionType::CarCollision) <==> (w.other_car is Some)
    }

    open spec fn enc_v(w: EventS) -> Seq<u8> {
        <CollisionType as Writeable>::enc_v(w.event_type) + (match w.other_car {
            Some(c) => seq![c],
            None => Seq::empty(),
        }) + F32::enc_v(w.impact_speed) + <Vec3f as Writeable>::enc_v(w.world_pos)
            + <Vec3f as Writeable>::enc_v(w.real_pos)
    }

    fn write(&self, buffer: &mut Vec<u8>) {
        self.event_type.write(buffer);
        match self.other_car {
            Some(c) => {
                buffer.push(c);
            },
            None => {},
        }
        self.impact_speed.write(buffer);
        self.world_pos.write(buffer);
        self.real_pos.write(buffer);
        assert(buffer@ =~= old(buffer)@ + Self::enc_v(self@));
    }
}

impl Readable for EventS {
    open spec fn dec_v(s: Seq<u8>) -> Option<(EventS, int)> {
        match <CollisionType as Readable>::dec_v(s) {
            None => None,
            Some((event_type, n1)) => {
                let oc = if event_type == CollisionType::CarCollision {
                    match <u8 as Readable>::dec_v(s.skip(n1)) {
                        Some((c, _)) => Some(Some(c)),
                        None => None,
                    }
                } else {
                    Some(None)
                };
                match oc {
                    None => None,
                    Some(other_car) => {
                        let n2: int = if other_car is Some {
                            1
                        } else {
                            0
                        };
                        match F32::dec_v(s.skip(n1 + n2)) {
                            None => None,
                            Some((impact_speed, n3)) => match <Vec3f as Readable>::dec_v(
                                s.skip(n1 + n2 + n3),
                            ) {
                                None => None,
                                Some((world_pos, n4)) => match <Vec3f as Readable>::dec_v(
                                    s.skip(n1 + n2 + n3 + n4),
                                ) {
                                    None => None,
                                    Some((real_pos, n5)) => Some(
                                        (
                                            EventS {
                                                event_type,
                                                other_car,
                                                impact_speed,
                                                world_pos,
                                                real_pos,
                                            },
                                            n1 + n2 + n3 + n4 + n5,
                                        ),
                                    ),
                                },
                            },
                        }
                    },
                }
            },
        }
    }

    open spec fn reads_to_end() -> bool {
        false
    }

    proof fn lemma_dec_sound(s: Seq<u8>) {
        <CollisionType as Readable>::lemma_dec_sound(s);
        if let Some((event_type, n1)) = <CollisionType as Readable>::dec_v(s) {
            <u8 as Readable>::lemma_dec_sound(s.skip(n1));
            let oc = if event_type == CollisionType::CarCollision {
                match <u8 as Readable>::dec_v(s.skip(n1)) {
                    Some((c, _)) => Some(Some(c)),
                    None => None,
                }
            } else {
                Some(None)
            };
            if let Some(other_car) = oc {
                let n2: int = if other_car is Some {
                    1
                } else {
                    0
                };
                if other_car is Some {
                    assert(s.take(n1) + s.skip(n1).take(1) =~= s.take(n1 + 1));
                } else {
                    assert(s.take(n1) + Seq::<u8>::empty() =~= s.take(n1));
                }
                F32::lemma_dec_sound(s.skip(n1 + n2));
                if let Some((impact_speed, n3)) = F32::dec_v(s.skip(n1 + n2)) {
                    <Vec3f as Readable>::lemma_dec_sound(s.skip(n1 + n2 + n3));
                    if let Some((world_pos, n4)) = <Vec3f as Readable>::dec_v(
                        s.skip(n1 + n2 + n3),
                    ) {
                        <Vec3f as Readable>::lemma_dec_sound(s.skip(n1 + n2 + n3 + n4));
                        if let Some((real_pos, n5)) = <Vec3f as Readable>::dec_v(
                            s.skip(n1 + n2 + n3 + n4),
                        ) {
                            assert(s.take(n1 + n2) + s.skip(n1 + n2).take(n3) =~= s.take(
                                n1 + n2 + n3,
                            ));
                            assert(s.take(n1 + n2 + n3) + s.skip(n1 + n2 + n3).take(n4) =~= s.take(
                                n1 + n2 + n3 + n4,
                            ));
                            assert(s.take(n1 + n2 + n3 + n4) + s.skip(n1 + n2 + n3 + n4).take(n5)
                                =~= s.take(n1 + n2 + n3 + n4 + n5));
                        }
                    }
                }
            }
        }
    }

    proof fn lemma_dec_complete(w: EventS, rest: Seq<u8>) {
        let e1 = <CollisionType as Writeable>::enc_v(w.event_type);
        let e2 = (match w.other_car {
            Some(c) => seq![c],
            None => Seq::<u8>::empty(),
        });
        let e3 = F32::enc_v(w.impact_speed);
        let e4 = <Vec3f as Writeable>::enc_v(w.world_pos);
        let e5 = <Vec3f as Writeable>::enc_v(w.real_pos);
        let r5 = rest;
        let r4 = e5 + r5;
        let r3 = e4 + r4;
        let r2 = e3 + r3;
        let r1 = e2 + r2;
        let s = Self::enc_v(w) + rest;
        assert(s =~= e1 + r1);
        <CollisionType as Readable>::lemma_dec_complete(w.event_type, r1);
        assert(s.skip(e1.len() as int) =~= r1);
        match w.other_car {
            Some(c) => {
                assert(r1[0] == c);
                assert(s.skip((e1.len() + e2.len()) as int) =~= r2);
            },
            None => {
                assert(s.skip((e1.len() + e2.len()) as int) =~= r2);
            },
        }
        F32::lemma_dec_complete(w.impact_speed, r3);
        assert(s.skip((e1.len() + e2.len() + e3.len()) as int) =~= r3);
        <Vec3f as Readable>::lemma_dec_complete(w.world_pos, r4);
        assert(s.skip((e1.len() + e2.len() + e3.len() + e4.len()) as int) =~= r4);
        <Vec3f as Readable>::lemma_dec_complete(w.real_pos, r5);
    }

    fn read(buf: &[u8], pos: &mut usize) -> (r: Result<EventS, Error>) {
        let ghost s = buf@.skip(*pos as int);
        let ghost p0 = *pos;
        let event_type = match <CollisionType as Readable>::read(buf, pos) {
            Ok(v) => v,
            Err(e) => {
                return Err(e);
            },
        };
        assert(buf@.skip(*pos as int) =~= s.skip(*pos - p0));
        let other_car = if event_type == CollisionType::CarCollision {
            match u8::read(buf, pos) {
                Ok(c) => Some(c),
                Err(e) => {
                    return Err(e);
                },
            }
        } else {
            None
        };
        assert(buf@.skip(*pos as int) =~= s.skip(*pos - p0));
        let impact_speed = match F32::read(buf, pos) {
            Ok(v) => v,
            Err(e) => {
                return Err(e);
            },
        };
        assert(buf@.skip(*pos as int) =~= s.skip(*pos - p0));
        let world_pos = match <Vec3f as Readable>::read(buf, pos) {
            Ok(v) => v,
            Err(e) => {
                return Err(e);
            },
        };
        assert(buf@.skip(*pos as int) =~= s.skip(*pos - p0));
        let real_pos = match <Vec3f as Readable>::read(buf, pos) {
            Ok(v) => v,
            Err(e) => {
                return Err(e);
            },
        };
        let v = EventS { event_type, other_car, impact_speed, world_pos, real_pos };
        Ok(v)
    }
}


/// A batch of collision events.
#[derive(Debug, Clone, PartialEq)]
pub struct Event {
    pub events: Vec<EventS>,
}

/// The mathematical view of [`Event`].
#[verifier::ext_equal]
pub struct EventView {
    pub events: Seq<EventS>,
}

impl View for Event {
    type V = EventView;

    open spec fn view(&self) -> EventView {
        EventView {
            events: views_of(self.events@),
        }
    }
}

impl Writeable for Event {
    open spec fn wf_v(w: EventView) -> bool {
        wf_u16_vec::<EventS>(w.events)
    }

    open spec fn enc_v(w: EventView) -> Seq<u8> {
        enc_u16_vec::<EventS>(w.events)
    }

    fn write(&self, buffer: &mut Vec<u8>) {
        write_u16_vec::<EventS>(&self.events, buffer);
        assert(buffer@ =~= old(buffer)@ + Self::enc_v(self@));
    }
}

impl Readable for Event {
    open spec fn dec_v(s: Seq<u8>) -> Option<(EventView, int)> {
        match dec_u16_vec::<EventS>(s) {
            None => None,
            Some((events, n1)) => Some((EventView { events }, n1)),
        }
    }

    open spec fn reads_to_end() -> bool {
        false
    }

    proof fn lemma_dec_sound(s: Seq<u8>) {
        lemma_dec_u16_vec_sound::<EventS>(s);
        if let Some((events, n1)) = dec_u16_vec::<EventS>(s) {
        }
    }

    proof fn lemma_dec_complete(w: EventView, rest: Seq<u8>) {
        let e1 = enc_u16_vec::<EventS>(w.events);
        let r1 = rest;
        let s = Self::enc_v(w) + rest;
        assert(s =~= e1 + r1);
        assert(!<EventS as Readable>::reads_to_end());
        lemma_dec_u16_vec_complete::<EventS>(w.events, r1);
        lemma_skip_concat(e1, r1);
    }

    fn read(buf: &[u8], pos: &mut usize) -> (r: Result<Event, Error>) {
        let ghost s = buf@.skip(*pos as int);
        let ghost p0 = *pos;
        let f_events = match read_u16_vec::<EventS>(buf, pos) {
            Ok(v) => v,
            Err(e) => {
                return Err(e);
            },
        };
        let v = Event { events: f_events };
        assert(v@ =~= EventView { events: views_of(f_events@) });
        Ok(v)
    }
}

/// The checksum report: raw MD5 digests of the client's game files, as
/// many as fit in the frame.
///
/// The packet has no element count: the decoder consumes one digest per
/// sixteen bytes remaining in the frame, so it only round-trips when
/// decoded from a frame that holds the packet and nothing else.
#[derive(Debug, Clone, PartialEq)]
pub struct Checksum {
    pub checksums: Vec<MD5Array>,
}

/// The mathematical view of [`Checksum`].
#[verifier::ext_equal]
pub struct ChecksumView {
    pub checksums: Seq<Seq<u8>>,
}

impl View for Checksum {
    type V = ChecksumView;

    open spec fn view(&self) -> ChecksumView {
        ChecksumView { checksums: views_of(self.checksums@) }
    }
}

impl Writeable for Checksum {
    open spec fn wf_v(w: ChecksumView) -> bool {
        wf_items::<MD5Array>(w.checksums)
    }

    open spec fn enc_v(w: ChecksumView) -> Seq<u8> {
        enc_items::<MD5Array>(w.checksums)
    }

    fn write(&self, buffer: &mut Vec<u8>) {
        write_items::<MD5Array>(&self.checksums, buffer);
    }
}

impl Readable for Checksum {
    open spec fn dec_v(s: Seq<u8>) -> Option<(ChecksumView, int)> {
        match dec_items::<MD5Array>(s, s.len() / 16) {
            Some((ws, m)) => Some((ChecksumView { checksums: ws }, m)),
            None => None,
        }
    }

    open spec fn reads_to_end() -> bool {
        true
    }

    proof fn lemma_dec_sound(s: Seq<u8>) {
        lemma_dec_items_sound::<MD5Array>(s, s.len() / 16);
    }

    proof fn lemma_dec_complete(w: ChecksumView, rest: Seq<u8>) {
        assert forall|d: Seq<u8>| <MD5Array as Writeable>::wf_v(d) implies (
        #[trigger] <MD5Array as Writeable>::enc_v(d)).len() == 16 by {}
        lemma_enc_items_len_fixed::<MD5Array>(w.checksums, 16);
        let e = enc_items::<MD5Array>(w.checksums);
        assert(e + rest =~= e);
        assert((16 * w.checksums.len()) / 16 == w.checksums.len()) by (nonlinear_arith);
        assert(!<MD5Array as Readable>::reads_to_end());
        lemma_dec_items_complete::<MD5Array>(w.checksums, rest);
    }

    fn read(buf: &[u8], pos: &mut usize) -> (r: Result<Checksum, Error>) {
        let count = (buf.len() - *pos) / 16;
        match read_items::<MD5Array>(buf, pos, count) {
            Ok(v) => Ok(Checksum { checksums: v }),
            Err(e) => Err(e),
        }
    }
}


/// A lobby liveness probe over the datagram channel.
#[derive(Debug, Clone, Copy, PartialEq, Eq, Structural)]
pub struct LobbyCheckMessage {
}

impl View for LobbyCheckMessage {
    type V = LobbyCheckMessage;

    open spec fn view(&self) -> LobbyCheckMessage {
        *self
    }
}

impl Writeable for LobbyCheckMessage {
    open spec fn wf_v(w: LobbyCheckMessage) -> bool {
        true
    }

    open spec fn enc_v(w: LobbyCheckMessage) -> Seq<u8> {
        Seq::empty()
    }

    fn write(&self, buffer: &mut Vec<u8>) {
        assert(buffer@ =~= old(buffer)@ + Self::enc_v(self@));
    }
}

impl Readable for LobbyCheckMessage {
    open spec fn dec_v(s: Seq<u8>) -> Option<(LobbyCheckMessage, int)> {
        Some((LobbyCheckMessage {  }, 0int))
    }

    open spec fn reads_to_end() -> bool {
        false
    }

    proof fn lemma_dec_sound(s: Seq<u8>) {
    }

    proof fn lemma_dec_complete(w: LobbyCheckMessage, rest: Seq<u8>) {
        assert(Self::enc_v(w) + rest =~= rest);
        assert(w == LobbyCheckMessage {  });
    }

    fn read(buf: &[u8], pos: &mut usize) -> (r: Result<LobbyCheckMessage, Error>) {
        Ok(LobbyCheckMessage {  })
    }
}

/// Binds the datagram return address: the client asserts its car slot
/// and the server records the datagram source address.
#[derive(Debug, Clone, Copy, PartialEq, Eq, Structural)]
pub struct UpdateUpdAddress {
    pub car_id: u8,
}

impl View for UpdateUpdAddress {
    type V = UpdateUpdAddress;

    open spec fn view(&self) -> UpdateUpdAddress {
        *self
    }
}

impl Writeable for UpdateUpdAddress {
    open spec fn wf_v(w: UpdateUpdAddress) -> bool {
        true
    }

    open spec fn enc_v(w: UpdateUpdAddress) -> Seq<u8> {
        <u8 as Writeable>::enc_v(w.car_id)
    }

    fn write(&self, buffer: &mut Vec<u8>) {
        self.car_id.write(buffer);
        assert(buffer@ =~= old(buffer)@ + Self::enc_v(self@));
    }
}

impl Readable for UpdateUpdAddress {
    open spec fn dec_v(s: Seq<u8>) -> Option<(UpdateUpdAddress, int)> {
        match <u8 as Readable>::dec_v(s) {
            None => None,
            Some((car_id, n1)) => Some((UpdateUpdAddress { car_id }, n1)),
        }
    }

    open spec fn reads_to_end() -> bool {
        false
    }

    proof fn lemma_dec_sound(s: Seq<u8>) {
        <u8 as Readable>::lemma_dec_sound(s);
        if let Some((car_id, n1)) = <u8 as Readable>::dec_v(s) {
        }
    }

    proof fn lemma_dec_complete(w: UpdateUpdAddress, rest: Seq<u8>) {
        let e1 = <u8 as Writeable>::enc_v(w.car_id);
        let r1 = rest;
        let s = Self::enc_v(w) + rest;
        assert(s =~= e1 + r1);
        <u8 as Readable>::lemma_dec_complete(w.car_id, r1);
        lemma_skip_concat(e1, r1);
    }

    fn read(buf: &[u8], pos: &mut usize) -> (r: Result<UpdateUpdAddress, Error>) {
        let ghost s = buf@.skip(*pos as int);
        let ghost p0 = *pos;
        let f_car_id = match <u8 as Readable>::read(buf, pos) {
            Ok(v) => v,
            Err(e) => {
                return Err(e);
            },
        };
        let v = UpdateUpdAddress { car_id: f_car_id };
        Ok(v)
    }
}

/// Every packet a client can send, dispatched by its packet-id byte.
/// The checksum report reads to the end of the frame, so the catalogue as
/// a whole only round-trips on exact frames.
#[derive(Debug, Clone, PartialEq)]
pub enum TestClient {
    P2PCount(P2PCount),
    MandatoryPit(MandatoryPit),
    JoinRequest(JoinRequest),
    CarlistRequest(CarlistRequest),
    Disconnect(Disconnect),
    Checksum(Checksum),
    CarUpdate(CarUpdate),
    Chat(Chat),
    LapCompleted(LapCompleted),
    Pulse(Pulse),
    UpdateUpdAddress(UpdateUpdAddress),
    SessionRequest(SessionRequest),
    ChangeTireCompound(ChangeTireCompound),
    DamageUpdate(DamageUpdate),
    SectorSplit(SectorSplit),
    NextSessionVote(NextSessionVote),
    RestartSessionVote(RestartSessionVote),
    KickVote(KickVote),
    Event(Event),
    LobbyCheckMessage(LobbyCheckMessage),
    Pong(Pong),
    Ping(Ping),
}

/// The mathematical view of [`TestClient`].
#[verifier::ext_equal]
pub enum TestClientView {
    P2PCount(P2PCount),
    MandatoryPit(MandatoryPit),
    JoinRequest(JoinRequestView),
    CarlistRequest(CarlistRequest),
    Disconnect(Disconnect),
    Checksum(ChecksumView),
    CarUpdate(CarUpdate),
    Chat(ChatView),
    LapCompleted(LapCompletedView),
    Pulse(Pulse),
    UpdateUpdAddress(UpdateUpdAddress),
    SessionRequest(SessionRequest),
    ChangeTireCompound(ChangeTireCompoundView),
    DamageUpdate(DamageUpdate),
    SectorSplit(SectorSplit),
    NextSessionVote(NextSessionVote),
    RestartSessionVote(RestartSessionVote),
    KickVote(KickVote),
    Event(EventView),
    LobbyCheckMessage(LobbyCheckMessage),
    Pong(Pong),
    Ping(Ping),
}

impl View for TestClient {
    type V = TestClientView;

    open spec fn view(&self) -> TestClientView {
        match self {
            TestClient::P2PCount(p) => TestClientView::P2PCount(p@),
            TestClient::MandatoryPit(p) => TestClientView::MandatoryPit(p@),
            TestClient::JoinRequest(p) => TestClientView::JoinRequest(p@),
            TestClient::CarlistRequest(p) => TestClientView::CarlistRequest(p@),
            TestClient::Disconnect(p) => TestClientView::Disconnect(p@),
            TestClient::Checksum(p) => TestClientView::Checksum(p@),
            TestClient::CarUpdate(p) => TestClientView::CarUpdate(p@),
            TestClient::Chat(p) => TestClientView::Chat(p@),
            TestClient::LapCompleted(p) => TestClientView::LapCompleted(p@),
            TestClient::Pulse(p) => TestClientView::Pulse(p@),
            TestClient::UpdateUpdAddress(p) => TestClientView::UpdateUpdAddress(p@),
            TestClient::SessionRequest(p) => TestClientView::SessionRequest(p@),
            TestClient::ChangeTireCompound(p) => TestClientView::ChangeTireCompound(p@),
            TestClient::DamageUpdate(p) => TestClientView::DamageUpdate(p@),
            TestClient::SectorSplit(p) => TestClientView::SectorSplit(p@),
            TestClient::NextSessionVote(p) => TestClientView::NextSessionVote(p@),
            TestClient::RestartSessionVote(p) => TestClientView::RestartSessionVote(p@),
            TestClient::KickVote(p) => TestClientView::KickVote(p@),
            TestClient::Event(p) => TestClientView::Event(p@),
            TestClient::LobbyCheckMessage(p) => TestClientView::LobbyCheckMessage(p@),
            TestClient::Pong(p) => TestClientView::Pong(p@),
            TestClient::Ping(p) => TestClientView::Ping(p@),
        }
    }
}

impl TestClient {
    /// The packet-id byte that discriminates a packet view on the wire.
    pub open spec fn spec_id(w: TestClientView) -> u8 {
        match w {
            TestClientView::P2PCount(_) => 0x0d,
            TestClientView::MandatoryPit(_) => 0x0e,
            TestClientView::JoinRequest(_) => 0x3d,
            TestClientView::CarlistRequest(_) => 0x3f,
            TestClientView::Disconnect(_) => 0x43,
            TestClientView::Checksum(_) => 0x44,
            TestClientView::CarUpdate(_) => 0x46,
            TestClientView::Chat(_) => 0x47,
            TestClientView::LapCompleted(_) => 0x49,
            TestClientView::Pulse(_) => 0x4c,
            TestClientView::UpdateUpdAddress(_) => 0x4e,
            TestClientView::SessionRequest(_) => 0x4f,
            TestClientView::ChangeTireCompound(_) => 0x50,
            TestClientView::DamageUpdate(_) => 0x56,
            TestClientView::SectorSplit(_) => 0x58,
            TestClientView::NextSessionVote(_) => 0x64,
            TestClientView::RestartSessionVote(_) => 0x65,
            TestClientView::KickVote(_) => 0x66,
            TestClientView::Event(_) => 0x82,
            TestClientView::LobbyCheckMessage(_) => 0xc8,
            TestClientView::Pong(_) => 0xf8,
            TestClientView::Ping(_) => 0xf9,
        }
    }

    /// Returns the packet-id byte of this packet.
    pub fn id(&self) -> (r: u8)
        ensures
            r == Self::spec_id(self@),
    {
        match self {
            TestClient::P2PCount(_) => 0x0d,
            TestClient::MandatoryPit(_) => 0x0e,
            TestClient::JoinRequest(_) => 0x3d,
            TestClient::CarlistRequest(_) => 0x3f,
            TestClient::Disconnect(_) => 0x43,
            TestClient::Checksum(_) => 0x44,
            TestClient::CarUpdate(_) => 0x46,
            TestClient::Chat(_) => 0x47,
            TestClient::LapCompleted(_) => 0x49,
            TestClient::Pulse(_) => 0x4c,
            TestClient::UpdateUpdAddress(_) => 0x4e,
            TestClient::SessionRequest(_) => 0x4f,
            TestClient::ChangeTireCompound(_) => 0x50,
            TestClient::DamageUpdate(_) => 0x56,
            TestClient::SectorSplit(_) => 0x58,
            TestClient::NextSessionVote(_) => 0x64,
            TestClient::RestartSessionVote(_) => 0x65,
            TestClient::KickVote(_) => 0x66,
            TestClient::Event(_) => 0x82,
            TestClient::LobbyCheckMessage(_) => 0xc8,
            TestClient::Pong(_) => 0xf8,
            TestClient::Ping(_) => 0xf9,
        }
    }
}

impl Writeable for TestClient {
    open spec fn wf_v(w: TestClientView) -> bool {
        match w {
            TestClientView::P2PCount(p) => <P2PCount as Writeable>::wf_v(p),
            TestClientView::MandatoryPit(p) => <MandatoryPit as Writeable>::wf_v(p),
            TestClientView::JoinRequest(p) => <JoinRequest as Writeable>::wf_v(p),
            TestClientView::CarlistRequest(p) => <CarlistRequest as Writeable>::wf_v(p),
            TestClientView::Disconnect(p) => <Disconnect as Writeable>::wf_v(p),
            TestClientView::Checksum(p) => <Checksum as Writeable>::wf_v(p),
            TestClientView::CarUpdate(p) => <CarUpdate as Writeable>::wf_v(p),
            TestClientView::Chat(p) => <Chat as Writeable>::wf_v(p),
            TestClientView::LapCompleted(p) => <LapCompleted as Writeable>::wf_v(p),
            TestClientView::Pulse(p) => <Pulse as Writeable>::wf_v(p),
            TestClientView::UpdateUpdAddress(p) => <UpdateUpdAddress as Writeable>::wf_v(p),
            TestClientView::SessionRequest(p) => <SessionRequest as Writeable>::wf_v(p),
            TestClientView::ChangeTireCompound(p) => <ChangeTireCompound as Writeable>::wf_v(p),
            TestClientView::DamageUpdate(p) => <DamageUpdate as Writeable>::wf_v(p),
            TestClientView::SectorSplit(p) => <SectorSplit as Writeable>::wf_v(p),
            TestClientView::NextSessionVote(p) => <NextSessionVote as Writeable>::wf_v(p),
            TestClientView::RestartSessionVote(p) => <RestartSessionVote as Writeable>::wf_v(p),
            TestClientView::KickVote(p) => <KickVote as Writeable>::wf_v(p),
            TestClientView::Event(p) => <Event as Writeable>::wf_v(p),
            TestClientView::LobbyCheckMessage(p) => <LobbyCheckMessage as Writeable>::wf_v(p),
            TestClientView::Pong(p) => <Pong as Writeable>::wf_v(p),
            TestClientView::Ping(p) => <Ping as Writeable>::wf_v(p),
        }
    }

    open spec fn enc_v(w: TestClientView) -> Seq<u8> {
        match w {
            TestClientView::P2PCount(p) => seq![0x0du8] + <P2PCount as Writeable>::enc_v(p),
            TestClientView::MandatoryPit(p) => seq![0x0eu8] + <MandatoryPit as Writeable>::enc_v(p),
            TestClientView::JoinRequest(p) => seq![0x3du8] + <JoinRequest as Writeable>::enc_v(p),
            TestClientView::CarlistRequest(p) => seq![0x3fu8] + <CarlistRequest as Writeable>::enc_v(p),
            TestClientView::Disconnect(p) => seq![0x43u8] + <Disconnect as Writeable>::enc_v(p),
            TestClientView::Checksum(p) => seq![0x44u8] + <Checksum as Writeable>::enc_v(p),
            TestClientView::CarUpdate(p) => seq![0x46u8] + <CarUpdate as Writeable>::enc_v(p),
            TestClientView::Chat(p) => seq![0x47u8] + <Chat as Writeable>::enc_v(p),
            TestClientView::LapCompleted(p) => seq![0x49u8] + <LapCompleted as Writeable>::enc_v(p),
            TestClientView::Pulse(p) => seq![0x4cu8] + <Pulse as Writeable>::enc_v(p),
            TestClientView::UpdateUpdAddress(p) => seq![0x4eu8] + <UpdateUpdAddress as Writeable>::enc_v(p),
            TestClientView::SessionRequest(p) => seq![0x4fu8] + <SessionRequest as Writeable>::enc_v(p),
            TestClientView::ChangeTireCompound(p) => seq![0x50u8] + <ChangeTireCompound as Writeable>::enc_v(p),
            TestClientView::DamageUpdate(p) => seq![0x56u8] + <DamageUpdate as Writeable>::enc_v(p),
            TestClientView::SectorSplit(p) => seq![0x58u8] + <SectorSplit as Writeable>::enc_v(p),
            TestClientView::NextSessionVote(p) => seq![0x64u8] + <NextSessionVote as Writeable>::enc_v(p),
            TestClientView::RestartSessionVote(p) => seq![0x65u8] + <RestartSessionVote as Writeable>::enc_v(p),
            TestClientView::KickVote(p) => seq![0x66u8] + <KickVote as Writeable>::enc_v(p),
            TestClientView::Event(p) => seq![0x82u8] + <Event as Writeable>::enc_v(p),
            TestClientView::LobbyCheckMessage(p) => seq![0xc8u8] + <LobbyCheckMessage as Writeable>::enc_v(p),
            TestClientView::Pong(p) => seq![0xf8u8] + <Pong as Writeable>::enc_v(p),
            TestClientView::Ping(p) => seq![0xf9u8] + <Ping as Writeable>::enc_v(p),
        }
    }

    #[verifier::rlimit(100)]
    #[verifier::spinoff_prover]
    fn write(&self, buffer: &mut Vec<u8>) {
        match self {
            TestClient::P2PCount(p) => {
                buffer.push(0x0d);
                p.write(buffer);
                assert(buffer@ =~= old(buffer)@ + Self::enc_v(self@));
            },
            TestClient::MandatoryPit(p) => {
                buffer.push(0x0e);
                p.write(buffer);
                assert(buffer@ =~= old(buffer)@ + Self::enc_v(self@));
            },
            TestClient::JoinRequest(p) => {
                buffer.push(0x3d);
                p.write(buffer);
                assert(buffer@ =~= old(buffer)@ + Self::enc_v(self@));
            },
            TestClient::CarlistRequest(p) => {
                buffer.push(0x3f);
                p.write(buffer);
                assert(buffer@ =~= old(buffer)@ + Self::enc_v(self@));
            },
            TestClient::Disconnect(p) => {
                buffer.push(0x43);
                p.write(buffer);
                assert(buffer@ =~= old(buffer)@ + Self::enc_v(self@));
            },
            TestClient::Checksum(p) => {
                buffer.push(0x44);
                p.write(buffer);
                assert(buffer@ =~= old(buffer)@ + Self::enc_v(self@));
            },
            TestClient::CarUpdate(p) => {
                buffer.push(0x46);
                p.write(buffer);
                assert(buffer@ =~= old(buffer)@ + Self::enc_v(self@));
            },
            TestClient::Chat(p) => {
                buffer.push(0x47);
                p.write(buffer);
                assert(buffer@ =~= old(buffer)@ + Self::enc_v(self@));
            },
            TestClient::LapCompleted(p) => {
                buffer.push(0x49);
                p.write(buffer);
                assert(buffer@ =~= old(buffer)@ + Self::enc_v(self@));
            },
            TestClient::Pulse(p) => {
                buffer.push(0x4c);
                p.write(buffer);
                assert(buffer@ =~= old(buffer)@ + Self::enc_v(self@));
            },
            TestClient::UpdateUpdAddress(p) => {
                buffer.push(0x4e);
                p.write(buffer);
                assert(buffer@ =~= old(buffer)@ + Self::enc_v(self@));
            },
            TestClient::SessionRequest(p) => {
                buffer.push(0x4f);
                p.write(buffer);
                assert(buffer@ =~= old(buffer)@ + Self::enc_v(self@));
            },
            TestClient::ChangeTireCompound(p) => {
                buffer.push(0x50);
                p.write(buffer);
                assert(buffer@ =~= old(buffer)@ + Self::enc_v(self@));
            },
            TestClient::DamageUpdate(p) => {
                buffer.push(0x56);
                p.write(buffer);
                assert(buffer@ =~= old(buffer)@ + Self::enc_v(self@));
            },
            TestClient::SectorSplit(p) => {
                buffer.push(0x58);
                p.write(buffer);
                assert(buffer@ =~= old(buffer)@ + Self::enc_v(self@));
            },
            TestClient::NextSessionVote(p) => {
                buffer.push(0x64);
                p.write(buffer);
                assert(buffer@ =~= old(buffer)@ + Self::enc_v(self@));
            },
            TestClient::RestartSessionVote(p) => {
                buffer.push(0x65);
                p.write(buffer);
                assert(buffer@ =~= old(buffer)@ + Self::enc_v(self@));
            },
            TestClient::KickVote(p) => {
                buffer.push(0x66);
                p.write(buffer);
                assert(buffer@ =~= old(buffer)@ + Self::enc_v(self@));
            },
            TestClient::Event(p) => {
                buffer.push(0x82);
                p.write(buffer);
                assert(buffer@ =~= old(buffer)@ + Self::enc_v(self@));
            },
            TestClient::LobbyCheckMessage(p) => {
                buffer.push(0xc8);
                p.write(buffer);
                assert(buffer@ =~= old(buffer)@ + Self::enc_v(self@));
            },
            TestClient::Pong(p) => {
                buffer.push(0xf8);
                p.write(buffer);
                assert(buffer@ =~= old(buffer)@ + Self::enc_v(self@));
            },
            TestClient::Ping(p) => {
                buffer.push(0xf9);
                p.write(buffer);
                assert(buffer@ =~= old(buffer)@ + Self::enc_v(self@));
            },
        }
    }
}

impl Readable for TestClient {
    open spec fn dec_v(s: Seq<u8>) -> Option<(TestClientView, int)> {
        if s.len() < 1 {
            None
        } else if s[0] == 0x0d {
            match <P2PCount as Readable>::dec_v(s.skip(1)) {
                Some((p, n)) => Some((TestClientView::P2PCount(p), 1 + n)),
                None => None,
            }
        } else if s[0] == 0x0e {
            match <MandatoryPit as Readable>::dec_v(s.skip(1)) {
                Some((p, n)) => Some((TestClientView::MandatoryPit(p), 1 + n)),
                None => None,
            }
        } else if s[0] == 0x3d {
            match <JoinRequest as Readable>::dec_v(s.skip(1)) {
                Some((p, n)) => Some((TestClientView::JoinRequest(p), 1 + n)),
                None => None,
            }
        } else if s[0] == 0x3f {
            match <CarlistRequest as Readable>::dec_v(s.skip(1)) {
                Some((p, n)) => Some((TestClientView::CarlistRequest(p), 1 + n)),
                None => None,
            }
        } else if s[0] == 0x43 {
            match <Disconnect as Readable>::dec_v(s.skip(1)) {
                Some((p, n)) => Some((TestClientView::Disconnect(p), 1 + n)),
                None => None,
            }
        } else if s[0] == 0x44 {
            match <Checksum as Readable>::dec_v(s.skip(1)) {
                Some((p, n)) => Some((TestClientView::Checksum(p), 1 + n)),
                None => None,
            }
        } else if s[0] == 0x46 {
            match <CarUpdate as Readable>::dec_v(s.skip(1)) {
                Some((p, n)) => Some((TestClientView::CarUpdate(p), 1 + n)),
                None => None,
            }
        } else if s[0] == 0x47 {
            match <Chat as Readable>::dec_v(s.skip(1)) {
                Some((p, n)) => Some((TestClientView::Chat(p), 1 + n)),
                None => None,
            }
        } else if s[0] == 0x49 {
            match <LapCompleted as Readable>::dec_v(s.skip(1)) {
                Some((p, n)) => Some((TestClientView::LapCompleted(p), 1 + n)),
                None => None,
            }
        } else if s[0] == 0x4c {
            match <Pulse as Readable>::dec_v(s.skip(1)) {
                Some((p, n)) => Some((TestClientView::Pulse(p), 1 + n)),
                None => None,
            }
        } else if s[0] == 0x4e {
            match <UpdateUpdAddress as Readable>::dec_v(s.skip(1)) {
                Some((p, n)) => Some((TestClientView::UpdateUpdAddress(p), 1 + n)),
                None => None,
            }
        } else if s[0] == 0x4f {
            match <SessionRequest as Readable>::dec_v(s.skip(1)) {
                Some((p, n)) => Some((TestClientView::SessionRequest(p), 1 + n)),
                None => None,
            }
        } else if s[0] == 0x50 {
            match <ChangeTireCompound as Readable>::dec_v(s.skip(1)) {
                Some((p, n)) => Some((TestClientView::ChangeTireCompound(p), 1 + n)),
                None => None,
            }
        } else if s[0] == 0x56 {
            match <DamageUpdate as Readable>::dec_v(s.skip(1)) {
                Some((p, n)) => Some((TestClientView::DamageUpdate(p), 1 + n)),
                None => None,
            }
        } else if s[0] == 0x58 {
            match <SectorSplit as Readable>::dec_v(s.skip(1)) {
                Some((p, n)) => Some((TestClientView::SectorSplit(p), 1 + n)),
                None => None,
            }
        } else if s[0] == 0x64 {
            match <NextSessionVote as Readable>::dec_v(s.skip(1)) {
                Some((p, n)) => Some((TestClientView::NextSessionVote(p), 1 + n)),
                None => None,
            }
        } else if s[0] == 0x65 {
            match <RestartSessionVote as Readable>::dec_v(s.skip(1)) {
                Some((p, n)) => Some((TestClientView::RestartSessionVote(p), 1 + n)),
                None => None,
            }
        } else if s[0] == 0x66 {
            match <KickVote as Readable>::dec_v(s.skip(1)) {
                Some((p, n)) => Some((TestClientView::KickVote(p), 1 + n)),
                None => None,
            }
        } else if s[0] == 0x82 {
            match <Event as Readable>::dec_v(s.skip(1)) {
                Some((p, n)) => Some((TestClientView::Event(p), 1 + n)),
                None => None,
            }
        } else if s[0] == 0xc8 {
            match <LobbyCheckMessage as Readable>::dec_v(s.skip(1)) {
                Some((p, n)) => Some((TestClientView::LobbyCheckMessage(p), 1 + n)),
                None => None,
            }
        } else if s[0] == 0xf8 {
            match <Pong as Readable>::dec_v(s.skip(1)) {
                Some((p, n)) => Some((TestClientView::Pong(p), 1 + n)),
                None => None,
            }
        } else if s[0] == 0xf9 {
            match <Ping as Readable>::dec_v(s.skip(1)) {
                Some((p, n)) => Some((TestClientView::Ping(p), 1 + n)),
                None => None,
            }
        } else {
            None
        }
    }

    open spec fn reads_to_end() -> bool {
        true
    }

    proof fn lemma_dec_sound(s: Seq<u8>) {
        if s.len() >= 1 {
            if s[0] == 0x0d {
                lemma_test_client_sound_p2_p_count(s);
            } else if s[0] == 0x0e {
                lemma_test_client_sound_mandatory_pit(s);
            } else if s[0] == 0x3d {
                lemma_test_client_sound_join_request(s);
            } else if s[0] == 0x3f {
                lemma_test_client_sound_carlist_request(s);
            } else if s[0] == 0x43 {
                lemma_test_client_sound_disconnect(s);
            } else if s[0] == 0x44 {
                lemma_test_client_sound_checksum(s);
            } else if s[0] == 0x46 {
                lemma_test_client_sound_car_update(s);
            } else if s[0] == 0x47 {
                lemma_test_client_sound_chat(s);
            } else if s[0] == 0x49 {
                lemma_test_client_sound_lap_completed(s);
            } else if s[0] == 0x4c {
                lemma_test_client_sound_pulse(s);
            } else if s[0] == 0x4e {
                lemma_test_client_sound_update_upd_address(s);
            } else if s[0] == 0x4f {
                lemma_test_client_sound_session_request(s);
            } else if s[0] == 0x50 {
                lemma_test_client_sound_change_tire_compound(s);
            } else if s[0] == 0x56 {
                lemma_test_client_sound_damage_update(s);
            } else if s[0] == 0x58 {
                lemma_test_client_sound_sector_split(s);
            } else if s[0] == 0x64 {
                lemma_test_client_sound_next_session_vote(s);
            } else if s[0] == 0x65 {
                lemma_test_client_sound_restart_session_vote(s);
            } else if s[0] == 0x66 {
                lemma_test_client_sound_kick_vote(s);
            } else if s[0] == 0x82 {
                lemma_test_client_sound_event(s);
            } else if s[0] == 0xc8 {
                lemma_test_client_sound_lobby_check_message(s);
            } else if s[0] == 0xf8 {
                lemma_test_client_sound_pong(s);
            } else if s[0] == 0xf9 {
                lemma_test_client_sound_ping(s);
            }
        }
    }

    proof fn lemma_dec_complete(w: TestClientView, rest: Seq<u8>) {
        match w {
            TestClientView::P2PCount(_) => lemma_test_client_complete_p2_p_count(w, rest),
            TestClientView::MandatoryPit(_) => lemma_test_client_complete_mandatory_pit(w, rest),
            TestClientView::JoinRequest(_) => lemma_test_client_complete_join_request(w, rest),
            TestClientView::CarlistRequest(_) => lemma_test_client_complete_carlist_request(w, rest),
            TestClientView::Disconnect(_) => lemma_test_client_complete_disconnect(w, rest),
            TestClientView::Checksum(_) => lemma_test_client_complete_checksum(w, rest),
            TestClientView::CarUpdate(_) => lemma_test_client_complete_car_update(w, rest),
            TestClientView::Chat(_) => lemma_test_client_complete_chat(w, rest),
            TestClientView::LapCompleted(_) => lemma_test_client_complete_lap_completed(w, rest),
            TestClientView::Pulse(_) => lemma_test_client_complete_pulse(w, rest),
            TestClientView::UpdateUpdAddress(_) => lemma_test_client_complete_update_upd_address(w, rest),
            TestClientView::SessionRequest(_) => lemma_test_client_complete_session_request(w, rest),
            TestClientView::ChangeTireCompound(_) => lemma_test_client_complete_change_tire_compound(w, rest),
            TestClientView::DamageUpdate(_) => lemma_test_client_complete_damage_update(w, rest),
            TestClientView::SectorSplit(_) => lemma_test_client_complete_sector_split(w, rest),
            TestClientView::NextSessionVote(_) => lemma_test_client_complete_next_session_vote(w, rest),
            TestClientView::RestartSessionVote(_) => lemma_test_client_complete_restart_session_vote(w, rest),
            TestClientView::KickVote(_) => lemma_test_client_complete_kick_vote(w, rest),
            TestClientView::Event(_) => lemma_test_client_complete_event(w, rest),
            TestClientView::LobbyCheckMessage(_) => lemma_test_client_complete_lobby_check_message(w, rest),
            TestClientView::Pong(_) => lemma_test_client_complete_pong(w, rest),
            TestClientView::Ping(_) => lemma_test_client_complete_ping(w, rest),
        }
    }

    #[verifier::rlimit(100)]
    #[verifier::spinoff_prover]
    fn read(buf: &[u8], pos: &mut usize) -> (r: Result<TestClient, Error>) {
        let ghost s = buf@.skip(*pos as int);
        let id = match u8::read(buf, pos) {
            Ok(b) => b,
            Err(e) => {
                return Err(e);
            },
        };
        assert(s[0] == id);
        assert(buf@.skip(*pos as int) =~= s.skip(1));
        if id == 0x0d {
            match <P2PCount as Readable>::read(buf, pos) {
                Ok(p) => Ok(TestClient::P2PCount(p)),
                Err(e) => Err(e),
            }
        } else if id == 0x0e {
            match <MandatoryPit as Readable>::read(buf, pos) {
                Ok(p) => Ok(TestClient::MandatoryPit(p)),
                Err(e) => Err(e),
            }
        } else if id == 0x3d {
            match <JoinRequest as Readable>::read(buf, pos) {
                Ok(p) => Ok(TestClient::JoinRequest(p)),
                Err(e) => Err(e),
            }
        } else if id == 0x3f {
            match <CarlistRequest as Readable>::read(buf, pos) {
                Ok(p) => Ok(TestClient::CarlistRequest(p)),
                Err(e) => Err(e),
            }
        } else if id == 0x43 {
            match <Disconnect as Readable>::read(buf, pos) {
                Ok(p) => Ok(TestClient::Disconnect(p)),
                Err(e) => Err(e),
            }
        } else if id == 0x44 {
            match <Checksum as Readable>::read(buf, pos) {
                Ok(p) => Ok(TestClient::Checksum(p)),
                Err(e) => Err(e),
            }
        } else if id == 0x46 {
            match <CarUpdate as Readable>::read(buf, pos) {
                Ok(p) => Ok(TestClient::CarUpdate(p)),
                Err(e) => Err(e),
            }
        } else if id == 0x47 {
            match <Chat as Readable>::read(buf, pos) {
                Ok(p) => Ok(TestClient::Chat(p)),
                Err(e) => Err(e),
            }
        } else if id == 0x49 {
            match <LapCompleted as Readable>::read(buf, pos) {
                Ok(p) => Ok(TestClient::LapCompleted(p)),
                Err(e) => Err(e),
            }
        } else if id == 0x4c {
            match <Pulse as Readable>::read(buf, pos) {
                Ok(p) => Ok(TestClient::Pulse(p)),
                Err(e) => Err(e),
            }
        } else if id == 0x4e {
            match <UpdateUpdAddress as Readable>::read(buf, pos) {
                Ok(p) => Ok(TestClient::UpdateUpdAddress(p)),
                Err(e) => Err(e),
            }
        } else if id == 0x4f {
            match <SessionRequest as Readable>::read(buf, pos) {
                Ok(p) => Ok(TestClient::SessionRequest(p)),
                Err(e) => Err(e),
            }
        } else if id == 0x50 {
            match <ChangeTireCompound as Readable>::read(buf, pos) {
                Ok(p) => Ok(TestClient::ChangeTireCompound(p)),
                Err(e) => Err(e),
            }
        } else if id == 0x56 {
            match <DamageUpdate as Readable>::read(buf, pos) {
                Ok(p) => Ok(TestClient::DamageUpdate(p)),
                Err(e) => Err(e),
            }
        } else if id == 0x58 {
            match <SectorSplit as Readable>::read(buf, pos) {
                Ok(p) => Ok(TestClient::SectorSplit(p)),
                Err(e) => Err(e),
            }
        } else if id == 0x64 {
            match <NextSessionVote as Readable>::read(buf, pos) {
                Ok(p) => Ok(TestClient::NextSessionVote(p)),
                Err(e) => Err(e),
            }
        } else if id == 0x65 {
            match <RestartSessionVote as Readable>::read(buf, pos) {
                Ok(p) => Ok(TestClient::RestartSessionVote(p)),
                Err(e) => Err(e),
            }
        } else if id == 0x66 {
            match <KickVote as Readable>::read(buf, pos) {
                Ok(p) => Ok(TestClient::KickVote(p)),
                Err(e) => Err(e),
            }
        } else if id == 0x82 {
            match <Event as Readable>::read(buf, pos) {
                Ok(p) => Ok(TestClient::Event(p)),
                Err(e) => Err(e),
            }
        } else if id == 0xc8 {
            match <LobbyCheckMessage as Readable>::read(buf, pos) {
                Ok(p) => Ok(TestClient::LobbyCheckMessage(p)),
                Err(e) => Err(e),
            }
        } else if id == 0xf8 {
            match <Pong as Readable>::read(buf, pos) {
                Ok(p) => Ok(TestClient::Pong(p)),
                Err(e) => Err(e),
            }
        } else if id == 0xf9 {
            match <Ping as Readable>::read(buf, pos) {
                Ok(p) => Ok(TestClient::Ping(p)),
                Err(e) => Err(e),
            }
        } else {
            Err(Error::UnknownPacketId)
        }
    }
}

/// Soundness of the catalogue decoder on a frame whose id byte names
/// this packet.
#[verifier::rlimit(100)]
#[verifier::spinoff_prover]
proof fn lemma_test_client_sound_p2_p_count(s: Seq<u8>)
    requires
        s.len() >= 1,
        s[0] == 0x0d,
    ensures
        (match <TestClient as Readable>::dec_v(s) {
            Some((w, n)) => <TestClient as Writeable>::wf_v(w) && 0 <= n <= s.len()
                && <TestClient as Writeable>::enc_v(w) == s.take(n),
            None => true,
        }),
{
    <P2PCount as Readable>::lemma_dec_sound(s.skip(1));
    if let Some((p, n)) = <P2PCount as Readable>::dec_v(s.skip(1)) {
        assert(seq![s[0]] + s.skip(1).take(n) =~= s.take(1 + n));
    }
}

/// Completeness of the catalogue decoder for this packet.
#[verifier::rlimit(100)]
#[verifier::spinoff_prover]
proof fn lemma_test_client_complete_p2_p_count(w: TestClientView, rest: Seq<u8>)
    requires
        <TestClient as Writeable>::wf_v(w),
        rest.len() == 0,
        w matches TestClientView::P2PCount(_),
    ensures
        <TestClient as Readable>::dec_v(<TestClient as Writeable>::enc_v(w) + rest) == Some(
            (w, <TestClient as Writeable>::enc_v(w).len() as int),
        ),
{
    let s = <TestClient as Writeable>::enc_v(w) + rest;
    match w {
        TestClientView::P2PCount(p) => {
            assert(s[0] == 0x0du8);
            assert(s.skip(1) =~= <P2PCount as Writeable>::enc_v(p) + rest);
            <P2PCount as Readable>::lemma_dec_complete(p, rest);
        },
        _ => {},
    }
}

/// Soundness of the catalogue decoder on a frame whose id byte names
/// this packet.
#[verifier::rlimit(100)]
#[verifier::spinoff_prover]
proof fn lemma_test_client_sound_mandatory_pit(s: Seq<u8>)
    requires
        s.len() >= 1,
        s[0] == 0x0e,
    ensures
        (match <TestClient as Readable>::dec_v(s) {
            Some((w, n)) => <TestClient as Writeable>::wf_v(w) && 0 <= n <= s.len()
                && <TestClient as Writeable>::enc_v(w) == s.take(n),
            None => true,
        }),
{
    <MandatoryPit as Readable>::lemma_dec_sound(s.skip(1));
    if let Some((p, n)) = <MandatoryPit as Readable>::dec_v(s.skip(1)) {
        assert(seq![s[0]] + s.skip(1).take(n) =~= s.take(1 + n));
    }
}

/// Completeness of the catalogue decoder for this packet.
#[verifier::rlimit(100)]
#[verifier::spinoff_prover]
proof fn lemma_test_client_complete_mandatory_pit(w: TestClientView, rest: Seq<u8>)
    requires
        <TestClient as Writeable>::wf_v(w),
        rest.len() == 0,
        w matches TestClientView::MandatoryPit(_),
    ensures
        <TestClient as Readable>::dec_v(<TestClient as Writeable>::enc_v(w) + rest) == Some(
            (w, <TestClient as Writeable>::enc_v(w).len() as int),
        ),
{
    let s = <TestClient as Writeable>::enc_v(w) + rest;
    match w {
        TestClientView::MandatoryPit(p) => {
            assert(s[0] == 0x0eu8);
            assert(s.skip(1) =~= <MandatoryPit as Writeable>::enc_v(p) + rest);
            <MandatoryPit as Readable>::lemma_dec_complete(p, rest);
        },
        _ => {},
    }
}

/// Soundness of the catalogue decoder on a frame whose id byte names
/// this packet.
#[verifier::rlimit(100)]
#[verifier::spinoff_prover]
proof fn lemma_test_client_sound_join_request(s: Seq<u8>)
    requires
        s.len() >= 1,
        s[0] == 0x3d,
    ensures
        (match <TestClient as Readable>::dec_v(s) {
            Some((w, n)) => <TestClient as Writeable>::wf_v(w) && 0 <= n <= s.len()
                && <TestClient as Writeable>::enc_v(w) == s.take(n),
            None => true,
        }),
{
    <JoinRequest as Readable>::lemma_dec_sound(s.skip(1));
    if let Some((p, n)) = <JoinRequest as Readable>::dec_v(s.skip(1)) {
        assert(seq![s[0]] + s.skip(1).take(n) =~= s.take(1 + n));
    }
}

/// Completeness of the catalogue decoder for this packet.
#[verifier::rlimit(100)]
#[verifier::spinoff_prover]
proof fn lemma_test_client_complete_join_request(w: TestClientView, rest: Seq<u8>)
    requires
        <TestClient as Writeable>::wf_v(w),
        rest.len() == 0,
        w matches TestClientView::JoinRequest(_),
    ensures
        <TestClient as Readable>::dec_v(<TestClient as Writeable>::enc_v(w) + rest) == Some(
            (w, <TestClient as Writeable>::enc_v(w).len() as int),
        ),
{
    let s = <TestClient as Writeable>::enc_v(w) + rest;
    match w {
        TestClientView::JoinRequest(p) => {
            assert(s[0] == 0x3du8);
            assert(s.skip(1) =~= <JoinRequest as Writeable>::enc_v(p) + rest);
            <JoinRequest as Readable>::lemma_dec_complete(p, rest);
        },
        _ => {},
    }
}

/// Soundness of the catalogue decoder on a frame whose id byte names
/// this packet.
#[verifier::rlimit(100)]
#[verifier::spinoff_prover]
proof fn lemma_test_client_sound_carlist_request(s: Seq<u8>)
    requires
        s.len() >= 1,
        s[0] == 0x3f,
    ensures
        (match <TestClient as Readable>::dec_v(s) {
            Some((w, n)) => <TestClient as Writeable>::wf_v(w) && 0 <= n <= s.len()
                && <TestClient as Writeable>::enc_v(w) == s.take(n),
            None => true,
        }),
{
    <CarlistRequest as Readable>::lemma_dec_sound(s.skip(1));
    if let Some((p, n)) = <CarlistRequest as Readable>::dec_v(s.skip(1)) {
        assert(seq![s[0]] + s.skip(1).take(n) =~= s.take(1 + n));
    }
}

/// Completeness of the catalogue decoder for this packet.
#[verifier::rlimit(100)]
#[verifier::spinoff_prover]
proof fn lemma_test_client_complete_carlist_request(w: TestClientView, rest: Seq<u8>)
    requires
        <TestClient as Writeable>::wf_v(w),
        rest.len() == 0,
        w matches TestClientView::CarlistRequest(_),
    ensures
        <TestClient as Readable>::dec_v(<TestClient as Writeable>::enc_v(w) + rest) == Some(
            (w, <TestClient as Writeable>::enc_v(w).len() as int),
        ),
{
    let s = <TestClient as Writeable>::enc_v(w) + rest;
    match w {
        TestClientView::CarlistRequest(p) => {
            assert(s[0] == 0x3fu8);
            assert(s.skip(1) =~= <CarlistRequest as Writeable>::enc_v(p) + rest);
            <CarlistRequest as Readable>::lemma_dec_complete(p, rest);
        },
        _ => {},
    }
}

/// Soundness of the catalogue decoder on a frame whose id byte names
/// this packet.
#[verifier::rlimit(100)]
#[verifier::spinoff_prover]
proof fn lemma_test_client_sound_disconnect(s: Seq<u8>)
    requires
        s.len() >= 1,
        s[0] == 0x43,
    ensures
        (match <TestClient as Readable>::dec_v(s) {
            Some((w, n)) => <TestClient as Writeable>::wf_v(w) && 0 <= n <= s.len()
                && <TestClient as Writeable>::enc_v(w) == s.take(n),
            None => true,
        }),
{
    <Disconnect as Readable>::lemma_dec_sound(s.skip(1));
    if let Some((p, n)) = <Disconnect as Readable>::dec_v(s.skip(1)) {
        assert(seq![s[0]] + s.skip(1).take(n) =~= s.take(1 + n));
    }
}

/// Completeness of the catalogue decoder for this packet.
#[verifier::rlimit(100)]
#[verifier::spinoff_prover]
proof fn lemma_test_client_complete_disconnect(w: TestClientView, rest: Seq<u8>)
    requires
        <TestClient as Writeable>::wf_v(w),
        rest.len() == 0,
        w matches TestClientView::Disconnect(_),
    ensures
        <TestClient as Readable>::dec_v(<TestClient as Writeable>::enc_v(w) + rest) == Some(
            (w, <TestClient as Writeable>::enc_v(w).len() as int),
        ),
{
    let s = <TestClient as Writeable>::enc_v(w) + rest;
    match w {
        TestClientView::Disconnect(p) => {
            assert(s[0] == 0x43u8);
            assert(s.skip(1) =~= <Disconnect as Writeable>::enc_v(p) + rest);
            <Disconnect as Readable>::lemma_dec_complete(p, rest);
        },
        _ => {},
    }
}

/// Soundness of the catalogue decoder on a frame whose id byte names
/// this packet.
#[verifier::rlimit(100)]
#[verifier::spinoff_prover]
proof fn lemma_test_client_sound_checksum(s: Seq<u8>)
    requires
        s.len() >= 1,
        s[0] == 0x44,
    ensures
        (match <TestClient as Readable>::dec_v(s) {
            Some((w, n)) => <TestClient as Writeable>::wf_v(w) && 0 <= n <= s.len()
                && <TestClient as Writeable>::enc_v(w) == s.take(n),
            None => true,
        }),
{
    <Checksum as Readable>::lemma_dec_sound(s.skip(1));
    if let Some((p, n)) = <Checksum as Readable>::dec_v(s.skip(1)) {
        assert(seq![s[0]] + s.skip(1).take(n) =~= s.take(1 + n));
    }
}

/// Completeness of the catalogue decoder for this packet.
#[verifier::rlimit(100)]
#[verifier::spinoff_prover]
proof fn lemma_test_client_complete_checksum(w: TestClientView, rest: Seq<u8>)
    requires
        <TestClient as Writeable>::wf_v(w),
        rest.len() == 0,
        w matches TestClientView::Checksum(_),
    ensures
        <TestClient as Readable>::dec_v(<TestClient as Writeable>::enc_v(w) + rest) == Some(
            (w, <TestClient as Writeable>::enc_v(w).len() as int),
        ),
{
    let s = <TestClient as Writeable>::enc_v(w) + rest;
    match w {
        TestClientView::Checksum(p) => {
            assert(s[0] == 0x44u8);
            assert(s.skip(1) =~= <Checksum as Writeable>::enc_v(p) + rest);
            <Checksum as Readable>::lemma_dec_complete(p, rest);
        },
        _ => {},
    }
}

/// Soundness of the catalogue decoder on a frame whose id byte names
/// this packet.
#[verifier::rlimit(100)]
#[verifier::spinoff_prover]
proof fn lemma_test_client_sound_car_update(s: Seq<u8>)
    requires
        s.len() >= 1,
        s[0] == 0x46,
    ensures
        (match <TestClient as Readable>::dec_v(s) {
            Some((w, n)) => <TestClient as Writeable>::wf_v(w) && 0 <= n <= s.len()
                && <TestClient as Writeable>::enc_v(w) == s.take(n),
            None => true,
        }),
{
    <CarUpdate as Readable>::lemma_dec_sound(s.skip(1));
    if let Some((p, n)) = <CarUpdate as Readable>::dec_v(s.skip(1)) {
        assert(seq![s[0]] + s.skip(1).take(n) =~= s.take(1 + n));
    }
}

/// Completeness of the catalogue decoder for this packet.
#[verifier::rlimit(100)]
#[verifier::spinoff_prover]
proof fn lemma_test_client_complete_car_update(w: TestClientView, rest: Seq<u8>)
    requires
        <TestClient as Writeable>::wf_v(w),
        rest.len() == 0,
        w matches TestClientView::CarUpdate(_),
    ensures
        <TestClient as Readable>::dec_v(<TestClient as Writeable>::enc_v(w) + rest) == Some(
            (w, <TestClient as Writeable>::enc_v(w).len() as int),
        ),
{
    let s = <TestClient as Writeable>::enc_v(w) + rest;
    match w {
        TestClientView::CarUpdate(p) => {
            assert(s[0] == 0x46u8);
            assert(s.skip(1) =~= <CarUpdate as Writeable>::enc_v(p) + rest);
            <CarUpdate as Readable>::lemma_dec_complete(p, rest);
        },
        _ => {},
    }
}

/// Soundness of the catalogue decoder on a frame whose id byte names
/// this packet.
#[verifier::rlimit(100)]
#[verifier::spinoff_prover]
proof fn lemma_test_client_sound_chat(s: Seq<u8>)
    requires
        s.len() >= 1,
        s[0] == 0x47,
    ensures
        (match <TestClient as Readable>::dec_v(s) {
            Some((w, n)) => <TestClient as Writeable>::wf_v(w) && 0 <= n <= s.len()
                && <TestClient as Writeable>::enc_v(w) == s.take(n),
            None => true,
        }),
{
    <Chat as Readable>::lemma_dec_sound(s.skip(1));
    if let Some((p, n)) = <Chat as Readable>::dec_v(s.skip(1)) {
        assert(seq![s[0]] + s.skip(1).take(n) =~= s.take(1 + n));
    }
}

/// Completeness of the catalogue decoder for this packet.
#[verifier::rlimit(100)]
#[verifier::spinoff_prover]
proof fn lemma_test_client_complete_chat(w: TestClientView, rest: Seq<u8>)
    requires
        <TestClient as Writeable>::wf_v(w),
        rest.len() == 0,
        w matches TestClientView::Chat(_),
    ensures
        <TestClient as Readable>::dec_v(<TestClient as Writeable>::enc_v(w) + rest) == Some(
            (w, <TestClient as Writeable>::enc_v(w).len() as int),
        ),
{
    let s = <TestClient as Writeable>::enc_v(w) + rest;
    match w {
        TestClientView::Chat(p) => {
            assert(s[0] == 0x47u8);
            assert(s.skip(1) =~= <Chat as Writeable>::enc_v(p) + rest);
            <Chat as Readable>::lemma_dec_complete(p, rest);
        },
        _ => {},
    }
}

/// Soundness of the catalogue decoder on a frame whose id byte names
/// this packet.
#[verifier::rlimit(100)]
#[verifier::spinoff_prover]
proof fn lemma_test_client_sound_lap_completed(s: Seq<u8>)
    requires
        s.len() >= 1,
        s[0] == 0x49,
    ensures
        (match <TestClient as Readable>::dec_v(s) {
            Some((w, n)) => <TestClient as Writeable>::wf_v(w) && 0 <= n <= s.len()
                && <TestClient as Writeable>::enc_v(w) == s.take(n),
            None => true,
        }),
{
    <LapCompleted as Readable>::lemma_dec_sound(s.skip(1));
    if let Some((p, n)) = <LapCompleted as Readable>::dec_v(s.skip(1)) {
        assert(seq![s[0]] + s.skip(1).take(n) =~= s.take(1 + n));
    }
}

/// Completeness of the catalogue decoder for this packet.
#[verifier::rlimit(100)]
#[verifier::spinoff_prover]
proof fn lemma_test_client_complete_lap_completed(w: TestClientView, rest: Seq<u8>)
    requires
        <TestClient as Writeable>::wf_v(w),
        rest.len() == 0,
        w matches TestClientView::LapCompleted(_),
    ensures
        <TestClient as Readable>::dec_v(<TestClient as Writeable>::enc_v(w) + rest) == Some(
            (w, <TestClient as Writeable>::enc_v(w).len() as int),
        ),
{
    let s = <TestClient as Writeable>::enc_v(w) + rest;
    match w {
        TestClientView::LapCompleted(p) => {
            assert(s[0] == 0x49u8);
            assert(s.skip(1) =~= <LapCompleted as Writeable>::enc_v(p) + rest);
            <LapCompleted as Readable>::lemma_dec_complete(p, rest);
        },
        _ => {},
    }
}

/// Soundness of the catalogue decoder on a frame whose id byte names
/// this packet.
#[verifier::rlimit(100)]
#[verifier::spinoff_prover]
proof fn lemma_test_client_sound_pulse(s: Seq<u8>)
    requires
        s.len() >= 1,
        s[0] == 0x4c,
    ensures
        (match <TestClient as Readable>::dec_v(s) {
            Some((w, n)) => <TestClient as Writeable>::wf_v(w) && 0 <= n <= s.len()
                && <TestClient as Writeable>::enc_v(w) == s.take(n),
            None => true,
        }),
{
    <Pulse as Readable>::lemma_dec_sound(s.skip(1));
    if let Some((p, n)) = <Pulse as Readable>::dec_v(s.skip(1)) {
        assert(seq![s[0]] + s.skip(1).take(n) =~= s.take(1 + n));
    }
}

/// Completeness of the catalogue decoder for this packet.
#[verifier::rlimit(100)]
#[verifier::spinoff_prover]
proof fn lemma_test_client_complete_pulse(w: TestClientView, rest: Seq<u8>)
    requires
        <TestClient as Writeable>::wf_v(w),
        rest.len() == 0,
        w matches TestClientView::Pulse(_),
    ensures
        <TestClient as Readable>::dec_v(<TestClient as Writeable>::enc_v(w) + rest) == Some(
            (w, <TestClient as Writeable>::enc_v(w).len() as int),
        ),
{
    let s = <TestClient as Writeable>::enc_v(w) + rest;
    match w {
        TestClientView::Pulse(p) => {
            assert(s[0] == 0x4cu8);
            assert(s.skip(1) =~= <Pulse as Writeable>::enc_v(p) + rest);
            <Pulse as Readable>::lemma_dec_complete(p, rest);
        },
        _ => {},
    }
}

/// Soundness of the catalogue decoder on a frame whose id byte names
/// this packet.
#[verifier::rlimit(100)]
#[verifier::spinoff_prover]
proof fn lemma_test_client_sound_update_upd_address(s: Seq<u8>)
    requires
        s.len() >= 1,
        s[0] == 0x4e,
    ensures
        (match <TestClient as Readable>::dec_v(s) {
            Some((w, n)) => <TestClient as Writeable>::wf_v(w) && 0 <= n <= s.len()
                && <TestClient as Writeable>::enc_v(w) == s.take(n),
            None => true,
        }),
{
    <UpdateUpdAddress as Readable>::lemma_dec_sound(s.skip(1));
    if let Some((p, n)) = <UpdateUpdAddress as Readable>::dec_v(s.skip(1)) {
        assert(seq![s[0]] + s.skip(1).take(n) =~= s.take(1 + n));
    }
}

/// Completeness of the catalogue decoder for this packet.
#[verifier::rlimit(100)]
#[verifier::spinoff_prover]
proof fn lemma_test_client_complete_update_upd_address(w: TestClientView, rest: Seq<u8>)
    requires
        <TestClient as Writeable>::wf_v(w),
        rest.len() == 0,
        w matches TestClientView::UpdateUpdAddress(_),
    ensures
        <TestClient as Readable>::dec_v(<TestClient as Writeable>::enc_v(w) + rest) == Some(
            (w, <TestClient as Writeable>::enc_v(w).len() as int),
        ),
{
    let s = <TestClient as Writeable>::enc_v(w) + rest;
    match w {
        TestClientView::UpdateUpdAddress(p) => {
            assert(s[0] == 0x4eu8);
            assert(s.skip(1) =~= <UpdateUpdAddress as Writeable>::enc_v(p) + rest);
            <UpdateUpdAddress as Readable>::lemma_dec_complete(p, rest);
        },
        _ => {},
    }
}

/// Soundness of the catalogue decoder on a frame whose id byte names
/// this packet.
#[verifier::rlimit(100)]
#[verifier::spinoff_prover]
proof fn lemma_test_client_sound_session_request(s: Seq<u8>)
    requires
        s.len() >= 1,
        s[0] == 0x4f,
    ensures
        (match <TestClient as Readable>::dec_v(s) {
            Some((w, n)) => <TestClient as Writeable>::wf_v(w) && 0 <= n <= s.len()
                && <TestClient as Writeable>::enc_v(w) == s.take(n),
            None => true,
        }),
{
    <SessionRequest as Readable>::lemma_dec_sound(s.skip(1));
    if let Some((p, n)) = <SessionRequest as Readable>::dec_v(s.skip(1)) {
        assert(seq![s[0]] + s.skip(1).take(n) =~= s.take(1 + n));
    }
}

/// Completeness of the catalogue decoder for this packet.
#[verifier::rlimit(100)]
#[verifier::spinoff_prover]
proof fn lemma_test_client_complete_session_request(w: TestClientView, rest: Seq<u8>)
    requires
        <TestClient as Writeable>::wf_v(w),
        rest.len() == 0,
        w matches TestClientView::SessionRequest(_),
    ensures
        <TestClient as Readable>::dec_v(<TestClient as Writeable>::enc_v(w) + rest) == Some(
            (w, <TestClient as Writeable>::enc_v(w).len() as int),
        ),
{
    let s = <TestClient as Writeable>::enc_v(w) + rest;
    match w {
        TestClientView::SessionRequest(p) => {
            assert(s[0] == 0x4fu8);
            assert(s.skip(1) =~= <SessionRequest as Writeable>::enc_v(p) + rest);
            <SessionRequest as Readable>::lemma_dec_complete(p, rest);
        },
        _ => {},
    }
}

/// Soundness of the catalogue decoder on a frame whose id byte names
/// this packet.
#[verifier::rlimit(100)]
#[verifier::spinoff_prover]
proof fn lemma_test_client_sound_change_tire_compound(s: Seq<u8>)
    requires
        s.len() >= 1,
        s[0] == 0x50,
    ensures
        (match <TestClient as Readable>::dec_v(s) {
            Some((w, n)) => <TestClient as Writeable>::wf_v(w) && 0 <= n <= s.len()
                && <TestClient as Writeable>::enc_v(w) == s.take(n),
            None => true,
        }),
{
    <ChangeTireCompound as Readable>::lemma_dec_sound(s.skip(1));
    if let Some((p, n)) = <ChangeTireCompound as Readable>::dec_v(s.skip(1)) {
        assert(seq![s[0]] + s.skip(1).take(n) =~= s.take(1 + n));
    }
}

/// Completeness of the catalogue decoder for this packet.
#[verifier::rlimit(100)]
#[verifier::spinoff_prover]
proof fn lemma_test_client_complete_change_tire_compound(w: TestClientView, rest: Seq<u8>)
    requires
        <TestClient as Writeable>::wf_v(w),
        rest.len() == 0,
        w matches TestClientView::ChangeTireCompound(_),
    ensures
        <TestClient as Readable>::dec_v(<TestClient as Writeable>::enc_v(w) + rest) == Some(
            (w, <TestClient as Writeable>::enc_v(w).len() as int),
        ),
{
    let s = <TestClient as Writeable>::enc_v(w) + rest;
    match w {
        TestClientView::ChangeTireCompound(p) => {
            assert(s[0] == 0x50u8);
            assert(s.skip(1) =~= <ChangeTireCompound as Writeable>::enc_v(p) + rest);
            <ChangeTireCompound as Readable>::lemma_dec_complete(p, rest);
        },
        _ => {},
    }
}

/// Soundness of the catalogue decoder on a frame whose id byte names
/// this packet.
#[verifier::rlimit(100)]
#[verifier::spinoff_prover]
proof fn lemma_test_client_sound_damage_update(s: Seq<u8>)
    requires
        s.len() >= 1,
        s[0] == 0x56,
    ensures
        (match <TestClient as Readable>::dec_v(s) {
            Some((w, n)) => <TestClient as Writeable>::wf_v(w) && 0 <= n <= s.len()
                && <TestClient as Writeable>::enc_v(w) == s.take(n),
            None => true,
        }),
{
    <DamageUpdate as Readable>::lemma_dec_sound(s.skip(1));
    if let Some((p, n)) = <DamageUpdate as Readable>::dec_v(s.skip(1)) {
        assert(seq![s[0]] + s.skip(1).take(n) =~= s.take(1 + n));
    }
}

/// Completeness of the catalogue decoder for this packet.
#[verifier::rlimit(100)]
#[verifier::spinoff_prover]
proof fn lemma_test_client_complete_damage_update(w: TestClientView, rest: Seq<u8>)
    requires
        <TestClient as Writeable>::wf_v(w),
        rest.len() == 0,
        w matches TestClientView::DamageUpdate(_),
    ensures
        <TestClient as Readable>::dec_v(<TestClient as Writeable>::enc_v(w) + rest) == Some(
            (w, <TestClient as Writeable>::enc_v(w).len() as int),
        ),
{
    let s = <TestClient as Writeable>::enc_v(w) + rest;
    match w {
        TestClientView::DamageUpdate(p) => {
            assert(s[0] == 0x56u8);
            assert(s.skip(1) =~= <DamageUpdate as Writeable>::enc_v(p) + rest);
            <DamageUpdate as Readable>::lemma_dec_complete(p, rest);
        },
        _ => {},
    }
}

/// Soundness of the catalogue decoder on a frame whose id byte names
/// this packet.
#[verifier::rlimit(100)]
#[verifier::spinoff_prover]
proof fn lemma_test_client_sound_sector_split(s: Seq<u8>)
    requires
        s.len() >= 1,
        s[0] == 0x58,
    ensures
        (match <TestClient as Readable>::dec_v(s) {
            Some((w, n)) => <TestClient as Writeable>::wf_v(w) && 0 <= n <= s.len()
                && <TestClient as Writeable>::enc_v(w) == s.take(n),
            None => true,
        }),
{
    <SectorSplit as Readable>::lemma_dec_sound(s.skip(1));
    if let Some((p, n)) = <SectorSplit as Readable>::dec_v(s.skip(1)) {
        assert(seq![s[0]] + s.skip(1).take(n) =~= s.take(1 + n));
    }
}

/// Completeness of the catalogue decoder for this packet.
#[verifier::rlimit(100)]
#[verifier::spinoff_prover]
proof fn lemma_test_client_complete_sector_split(w: TestClientView, rest: Seq<u8>)
    requires
        <TestClient as Writeable>::wf_v(w),
        rest.len() == 0,
        w matches TestClientView::SectorSplit(_),
    ensures
        <TestClient as Readable>::dec_v(<TestClient as Writeable>::enc_v(w) + rest) == Some(
            (w, <TestClient as Writeable>::enc_v(w).len() as int),
        ),
{
    let s = <TestClient as Writeable>::enc_v(w) + rest;
    match w {
        TestClientView::SectorSplit(p) => {
            assert(s[0] == 0x58u8);
            assert(s.skip(1) =~= <SectorSplit as Writeable>::enc_v(p) + rest);
            <SectorSplit as Readable>::lemma_dec_complete(p, rest);
        },
        _ => {},
    }
}

/// Soundness of the catalogue decoder on a frame whose id byte names
/// this packet.
#[verifier::rlimit(100)]
#[verifier::spinoff_prover]
proof fn lemma_test_client_sound_next_session_vote(s: Seq<u8>)
    requires
        s.len() >= 1,
        s[0] == 0x64,
    ensures
        (match <TestClient as Readable>::dec_v(s) {
            Some((w, n)) => <TestClient as Writeable>::wf_v(w) && 0 <= n <= s.len()
                && <TestClient as Writeable>::enc_v(w) == s.take(n),
            None => true,
        }),
{
    <NextSessionVote as Readable>::lemma_dec_sound(s.skip(1));
    if let Some((p, n)) = <NextSessionVote as Readable>::dec_v(s.skip(1)) {
        assert(seq![s[0]] + s.skip(1).take(n) =~= s.take(1 + n));
    }
}

/// Completeness of the catalogue decoder for this packet.
#[verifier::rlimit(100)]
#[verifier::spinoff_prover]
proof fn lemma_test_client_complete_next_session_vote(w: TestClientView, rest: Seq<u8>)
    requires
        <TestClient as Writeable>::wf_v(w),
        rest.len() == 0,
        w matches TestClientView::NextSessionVote(_),
    ensures
        <TestClient as Readable>::dec_v(<TestClient as Writeable>::enc_v(w) + rest) == Some(
            (w, <TestClient as Writeable>::enc_v(w).len() as int),
        ),
{
    let s = <TestClient as Writeable>::enc_v(w) + rest;
    match w {
        TestClientView::NextSessionVote(p) => {
            assert(s[0] == 0x64u8);
            assert(s.skip(1) =~= <NextSessionVote as Writeable>::enc_v(p) + rest);
            <NextSessionVote as Readable>::lemma_dec_complete(p, rest);
        },
        _ => {},
    }
}

/// Soundness of the catalogue decoder on a frame whose id byte names
/// this packet.
#[verifier::rlimit(100)]
#[verifier::spinoff_prover]
proof fn lemma_test_client_sound_restart_session_vote(s: Seq<u8>)
    requires
        s.len() >= 1,
        s[0] == 0x65,
    ensures
        (match <TestClient as Readable>::dec_v(s) {
            Some((w, n)) => <TestClient as Writeable>::wf_v(w) && 0 <= n <= s.len()
                && <TestClient as Writeable>::enc_v(w) == s.take(n),
            None => true,
        }),
{
    <RestartSessionVote as Readable>::lemma_dec_sound(s.skip(1));
    if let Some((p, n)) = <RestartSessionVote as Readable>::dec_v(s.skip(1)) {
        assert(seq![s[0]] + s.skip(1).take(n) =~= s.take(1 + n));
    }
}

/// Completeness of the catalogue decoder for this packet.
#[verifier::rlimit(100)]
#[verifier::spinoff_prover]
proof fn lemma_test_client_complete_restart_session_vote(w: TestClientView, rest: Seq<u8>)
    requires
        <TestClient as Writeable>::wf_v(w),
        rest.len() == 0,
        w matches TestClientView::RestartSessionVote(_),
    ensures
        <TestClient as Readable>::dec_v(<TestClient as Writeable>::enc_v(w) + rest) == Some(
            (w, <TestClient as Writeable>::enc_v(w).len() as int),
        ),
{
    let s = <TestClient as Writeable>::enc_v(w) + rest;
    match w {
        TestClientView::RestartSessionVote(p) => {
            assert(s[0] == 0x65u8);
            assert(s.skip(1) =~= <RestartSessionVote as Writeable>::enc_v(p) + rest);
            <RestartSessionVote as Readable>::lemma_dec_complete(p, rest);
        },
        _ => {},
    }
}

/// Soundness of the catalogue decoder on a frame whose id byte names
/// this packet.
#[verifier::rlimit(100)]
#[verifier::spinoff_prover]
proof fn lemma_test_client_sound_kick_vote(s: Seq<u8>)
    requires
        s.len() >= 1,
        s[0] == 0x66,
    ensures
        (match <TestClient as Readable>::dec_v(s) {
            Some((w, n)) => <TestClient as Writeable>::wf_v(w) && 0 <= n <= s.len()
                && <TestClient as Writeable>::enc_v(w) == s.take(n),
            None => true,
        }),
{
    <KickVote as Readable>::lemma_dec_sound(s.skip(1));
    if let Some((p, n)) = <KickVote as Readable>::dec_v(s.skip(1)) {
        assert(seq![s[0]] + s.skip(1).take(n) =~= s.take(1 + n));
    }
}

/// Completeness of the catalogue decoder for this packet.
#[verifier::rlimit(100)]
#[verifier::spinoff_prover]
proof fn lemma_test_client_complete_kick_vote(w: TestClientView, rest: Seq<u8>)
    requires
        <TestClient as Writeable>::wf_v(w),
        rest.len() == 0,
        w matches TestClientView::KickVote(_),
    ensures
        <TestClient as Readable>::dec_v(<TestClient as Writeable>::enc_v(w) + rest) == Some(
            (w, <TestClient as Writeable>::enc_v(w).len() as int),
        ),
{
    let s = <TestClient as Writeable>::enc_v(w) + rest;
    match w {
        TestClientView::KickVote(p) => {
            assert(s[0] == 0x66u8);
            assert(s.skip(1) =~= <KickVote as Writeable>::enc_v(p) + rest);
            <KickVote as Readable>::lemma_dec_complete(p, rest);
        },
        _ => {},
    }
}

/// Soundness of the catalogue decoder on a frame whose id byte names
/// this packet.
#[verifier::rlimit(100)]
#[verifier::spinoff_prover]
proof fn lemma_test_client_sound_event(s: Seq<u8>)
    requires
        s.len() >= 1,
        s[0] == 0x82,
    ensures
        (match <TestClient as Readable>::dec_v(s) {
            Some((w, n)) => <TestClient as Writeable>::wf_v(w) && 0 <= n <= s.len()
                && <TestClient as Writeable>::enc_v(w) == s.take(n),
            None => true,
        }),
{
    <Event as Readable>::lemma_dec_sound(s.skip(1));
    if let Some((p, n)) = <Event as Readable>::dec_v(s.skip(1)) {
        assert(seq![s[0]] + s.skip(1).take(n) =~= s.take(1 + n));
    }
}

/// Completeness of the catalogue decoder for this packet.
#[verifier::rlimit(100)]
#[verifier::spinoff_prover]
proof fn lemma_test_client_complete_event(w: TestClientView, rest: Seq<u8>)
    requires
        <TestClient as Writeable>::wf_v(w),
        rest.len() == 0,
        w matches TestClientView::Event(_),
    ensures
        <TestClient as Readable>::dec_v(<TestClient as Writeable>::enc_v(w) + rest) == Some(
            (w, <TestClient as Writeable>::enc_v(w).len() as int),
        ),
{
    let s = <TestClient as Writeable>::enc_v(w) + rest;
    match w {
        TestClientView::Event(p) => {
            assert(s[0] == 0x82u8);
            assert(s.skip(1) =~= <Event as Writeable>::enc_v(p) + rest);
            <Event as Readable>::lemma_dec_complete(p, rest);
        },
        _ => {},
    }
}

/// Soundness of the catalogue decoder on a frame whose id byte names
/// this packet.
#[verifier::rlimit(100)]
#[verifier::spinoff_prover]
proof fn lemma_test_client_sound_lobby_check_message(s: Seq<u8>)
    requires
        s.len() >= 1,
        s[0] == 0xc8,
    ensures
        (match <TestClient as Readable>::dec_v(s) {
            Some((w, n)) => <TestClient as Writeable>::wf_v(w) && 0 <= n <= s.len()
                && <TestClient as Writeable>::enc_v(w) == s.take(n),
            None => true,
        }),
{
    <LobbyCheckMessage as Readable>::lemma_dec_sound(s.skip(1));
    if let Some((p, n)) = <LobbyCheckMessage as Readable>::dec_v(s.skip(1)) {
        assert(seq![s[0]] + s.skip(1).take(n) =~= s.take(1 + n));
    }
}

/// Completeness of the catalogue decoder for this packet.
#[verifier::rlimit(100)]
#[verifier::spinoff_prover]
proof fn lemma_test_client_complete_lobby_check_message(w: TestClientView, rest: Seq<u8>)
    requires
        <TestClient as Writeable>::wf_v(w),
        rest.len() == 0,
        w matches TestClientView::LobbyCheckMessage(_),
    ensures
        <TestClient as Readable>::dec_v(<TestClient as Writeable>::enc_v(w) + rest) == Some(
            (w, <TestClient as Writeable>::enc_v(w).len() as int),
        ),
{
    let s = <TestClient as Writeable>::enc_v(w) + rest;
    match w {
        TestClientView::LobbyCheckMessage(p) => {
            assert(s[0] == 0xc8u8);
            assert(s.skip(1) =~= <LobbyCheckMessage as Writeable>::enc_v(p) + rest);
            <LobbyCheckMessage as Readable>::lemma_dec_complete(p, rest);
        },
        _ => {},
    }
}

/// Soundness of the catalogue decoder on a frame whose id byte names
/// this packet.
#[verifier::rlimit(100)]
#[verifier::spinoff_prover]
proof fn lemma_test_client_sound_pong(s: Seq<u8>)
    requires
        s.len() >= 1,
        s[0] == 0xf8,
    ensures
        (match <TestClient as Readable>::dec_v(s) {
            Some((w, n)) => <TestClient as Writeable>::wf_v(w) && 0 <= n <= s.len()
                && <TestClient as Writeable>::enc_v(w) == s.take(n),
            None => true,
        }),
{
    <Pong as Readable>::lemma_dec_sound(s.skip(1));
    if let Some((p, n)) = <Pong as Readable>::dec_v(s.skip(1)) {
        assert(seq![s[0]] + s.skip(1).take(n) =~= s.take(1 + n));
    }
}

/// Completeness of the catalogue decoder for this packet.
#[verifier::rlimit(100)]
#[verifier::spinoff_prover]
proof fn lemma_test_client_complete_pong(w: TestClientView, rest: Seq<u8>)
    requires
        <TestClient as Writeable>::wf_v(w),
        rest.len() == 0,
        w matches TestClientView::Pong(_),
    ensures
        <TestClient as Readable>::dec_v(<TestClient as Writeable>::enc_v(w) + rest) == Some(
            (w, <TestClient as Writeable>::enc_v(w).len() as int),
        ),
{
    let s = <TestClient as Writeable>::enc_v(w) + rest;
    match w {
        TestClientView::Pong(p) => {
            assert(s[0] == 0xf8u8);
            assert(s.skip(1) =~= <Pong as Writeable>::enc_v(p) + rest);
            <Pong as Readable>::lemma_dec_complete(p, rest);
        },
        _ => {},
    }
}

/// Soundness of the catalogue decoder on a frame whose id byte names
/// this packet.
#[verifier::rlimit(100)]
#[verifier::spinoff_prover]
proof fn lemma_test_client_sound_ping(s: Seq<u8>)
    requires
        s.len() >= 1,
        s[0] == 0xf9,
    ensures
        (match <TestClient as Readable>::dec_v(s) {
            Some((w, n)) => <TestClient as Writeable>::wf_v(w) && 0 <= n <= s.len()
                && <TestClient as Writeable>::enc_v(w) == s.take(n),
            None => true,
        }),
{
    <Ping as Readable>::lemma_dec_sound(s.skip(1));
    if let Some((p, n)) = <Ping as Readable>::dec_v(s.skip(1)) {
        assert(seq![s[0]] + s.skip(1).take(n) =~= s.take(1 + n));
    }
}

/// Completeness of the catalogue decoder for this packet.
#[verifier::rlimit(100)]
#[verifier::spinoff_prover]
proof fn lemma_test_client_complete_ping(w: TestClientView, rest: Seq<u8>)
    requires
        <TestClient as Writeable>::wf_v(w),
        rest.len() == 0,
        w matches TestClientView::Ping(_),
    ensures
        <TestClient as Readable>::dec_v(<TestClient as Writeable>::enc_v(w) + rest) == Some(
            (w, <TestClient as Writeable>::enc_v(w).len() as int),
        ),
{
    let s = <TestClient as Writeable>::enc_v(w) + rest;
    match w {
        TestClientView::Ping(p) => {
            assert(s[0] == 0xf9u8);
            assert(s.skip(1) =~= <Ping as Writeable>::enc_v(p) + rest);
            <Ping as Readable>::lemma_dec_complete(p, rest);
        },
        _ => {},
    }
}

} // verus!
