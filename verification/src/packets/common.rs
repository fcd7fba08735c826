//! Wire values shared by the client and server catalogues: the protocol
//! version, three-component float vectors and the small tagged enums.
use crate::wire::Error;
use crate::wire::Readable;
use crate::wire::Writeable;
use crate::wire::F32;
use vstd::prelude::*;

verus! {

/// The single protocol version this server speaks; a join request with
/// any other version is refused.
pub const PROTOCOL_VERSION: u16 = 202;

/// A three-component vector of raw float bits: position, rotation or
/// velocity as it travels on the wire.
#[derive(Debug, Clone, Copy, PartialEq, Eq, Structural)]
pub struct Vec3f {
    pub x: F32,
    pub y: F32,
    pub z: F32,
}

impl View for Vec3f {
    type V = Vec3f;

    open spec fn view(&self) -> Vec3f {
        *self
    }
}

impl Writeable for Vec3f {
    open spec fn wf_v(w: Vec3f) -> bool {
        true
    }

    open spec fn enc_v(w: Vec3f) -> Seq<u8> {
        F32::enc_v(w.x) + F32::enc_v(w.y) + F32::enc_v(w.z)
    }

    fn write(&self, buffer: &mut Vec<u8>) {
        self.x.write(buffer);
        self.y.write(buffer);
        self.z.write(buffer);
        assert(buffer@ =~= old(buffer)@ + Self::enc_v(self@));
    }
}

impl Readable for Vec3f {
    open spec fn dec_v(s: Seq<u8>) -> Option<(Vec3f, int)> {
        match F32::dec_v(s) {
            None => None,
            Some((x, n1)) => match F32::dec_v(s.skip(n1)) {
                None => None,
                Some((y, n2)) => match F32::dec_v(s.skip(n1 + n2)) {
                    None => None,
                    Some((z, n3)) => Some((Vec3f { x, y, z }, n1 + n2 + n3)),
                },
            },
        }
    }

    open spec fn reads_to_end() -> bool {
        false
    }

    proof fn lemma_dec_sound(s: Seq<u8>) {
        F32::lemma_dec_sound(s);
        if let Some((x, n1)) = F32::dec_v(s) {
            F32::lemma_dec_sound(s.skip(n1));
            if let Some((y, n2)) = F32::dec_v(s.skip(n1)) {
                F32::lemma_dec_sound(s.skip(n1 + n2));
                if let Some((z, n3)) = F32::dec_v(s.skip(n1 + n2)) {
                    assert(s.skip(n1).skip(n2) =~= s.skip(n1 + n2));
                    assert(s.take(n1) + s.skip(n1).take(n2) =~= s.take(n1 + n2));
                    assert(s.take(n1 + n2) + s.skip(n1 + n2).take(n3) =~= s.take(n1 + n2 + n3));
                }
            }
        }
    }

    proof fn lemma_dec_complete(w: Vec3f, rest: Seq<u8>) {
        let e1 = F32::enc_v(w.x);
        let e2 = F32::enc_v(w.y);
        let e3 = F32::enc_v(w.z);
        let r3 = rest;
        let r2 = e3 + r3;
        let r1 = e2 + r2;
        let s = Self::enc_v(w) + rest;
        assert(s =~= e1 + r1);
        F32::lemma_dec_complete(w.x, r1);
        assert(s.skip(e1.len() as int) =~= r1);
        F32::lemma_dec_complete(w.y, r2);
        assert(s.skip((e1.len() + e2.len()) as int) =~= r2);
        F32::lemma_dec_complete(w.z, r3);
    }

    fn read(buf: &[u8], pos: &mut usize) -> (r: Result<Vec3f, Error>) {
        let ghost s = buf@.skip(*pos as int);
        let ghost p0 = *pos;
        let x = match F32::read(buf, pos) {
            Ok(v) => v,
            Err(e) => {
                return Err(e);
            },
        };
        assert(buf@.skip(*pos as int) =~= s.skip(*pos - p0));
        let y = match F32::read(buf, pos) {
            Ok(v) => v,
            Err(e) => {
                return Err(e);
            },
        };
        assert(buf@.skip(*pos as int) =~= s.skip(*pos - p0));
        let z = match F32::read(buf, pos) {
            Ok(v) => v,
            Err(e) => {
                return Err(e);
            },
        };
        Ok(Vec3f { x, y, z })
    }
}

/// The kind of a session: booking, practice, qualifying or race.
#[derive(Debug, Clone, Copy, PartialEq, Eq, Structural)]
pub enum SessionType {
    Booking,
    Practice,
    Qualify,
    Race,
}

impl SessionType {
    /// The wire byte of this session type.
    pub open spec fn spec_byte(self) -> u8 {
        match self {
            SessionType::Booking => 0,
            SessionType::Practice => 1,
            SessionType::Qualify => 2,
            SessionType::Race => 3,
        }
    }

    /// Returns the wire byte of this session type.
    pub fn byte(self) -> (r: u8)
        ensures
            r == self.spec_byte(),
    {
        match self {
            SessionType::Booking => 0,
            SessionType::Practice => 1,
            SessionType::Qualify => 2,
            SessionType::Race => 3,
        }
    }

    /// Maps a configuration byte to a session type; anything out of
    /// range counts as practice.
    pub fn from_byte(b: u8) -> (r: SessionType)
        ensures
            b == 0 ==> r == SessionType::Booking,
            b == 1 ==> r == SessionType::Practice,
            b == 2 ==> r == SessionType::Qualify,
            b == 3 ==> r == SessionType::Race,
            b > 3 ==> r == SessionType::Practice,
    {
        match b {
            0 => SessionType::Booking,
            2 => SessionType::Qualify,
            3 => SessionType::Race,
            _ => SessionType::Practice,
        }
    }
}

impl View for SessionType {
    type V = SessionType;

    open spec fn view(&self) -> SessionType {
        *self
    }
}

impl Writeable for SessionType {
    open spec fn wf_v(w: SessionType) -> bool {
        true
    }

    open spec fn enc_v(w: SessionType) -> Seq<u8> {
        seq![w.spec_byte()]
    }

    fn write(&self, buffer: &mut Vec<u8>) {
        buffer.push(self.byte());
        assert(buffer@ =~= old(buffer)@ + Self::enc_v(self@));
    }
}

impl Readable for SessionType {
    open spec fn dec_v(s: Seq<u8>) -> Option<(SessionType, int)> {
        if s.len() < 1 {
            None
        } else if s[0] == 0 {
            Some((SessionType::Booking, 1int))
        } else if s[0] == 1 {
            Some((SessionType::Practice, 1int))
        } else if s[0] == 2 {
            Some((SessionType::Qualify, 1int))
        } else if s[0] == 3 {
            Some((SessionType::Race, 1int))
        } else {
            None
        }
    }

    open spec fn reads_to_end() -> bool {
        false
    }

    proof fn lemma_dec_sound(s: Seq<u8>) {
        if s.len() >= 1 && s[0] <= 3 {
            if let Some((w, n)) = Self::dec_v(s) {
                assert(Self::enc_v(w) =~= s.take(1));
            }
        }
    }

    proof fn lemma_dec_complete(w: SessionType, rest: Seq<u8>) {
        assert((Self::enc_v(w) + rest)[0] == w.spec_byte());
    }

    fn read(buf: &[u8], pos: &mut usize) -> (r: Result<SessionType, Error>) {
        let ghost s = buf@.skip(*pos as int);
        let b = match u8::read(buf, pos) {
            Ok(b) => b,
            Err(e) => {
                return Err(e);
            },
        };
        assert(s[0] == b);
        if b == 0 {
            Ok(SessionType::Booking)
        } else if b == 1 {
            Ok(SessionType::Practice)
        } else if b == 2 {
            Ok(SessionType::Qualify)
        } else if b == 3 {
            Ok(SessionType::Race)
        } else {
            Err(Error::InvalidDiscriminant)
        }
    }
}

/// Whether a driving aid is denied, left to the car's factory setting,
/// or forced on.
#[derive(Debug, Clone, Copy, PartialEq, Eq, Structural)]
pub enum OnOffFactoryOption {
    Denied,
    Factory,
    Forced,
}

impl OnOffFactoryOption {
    /// The wire byte of this option.
    pub open spec fn spec_byte(self) -> u8 {
        match self {
            OnOffFactoryOption::Denied => 0,
            OnOffFactoryOption::Factory => 1,
            OnOffFactoryOption::Forced => 2,
        }
    }

    /// Returns the wire byte of this option.
    pub fn byte(self) -> (r: u8)
        ensures
            r == self.spec_byte(),
    {
        match self {
            OnOffFactoryOption::Denied => 0,
            OnOffFactoryOption::Factory => 1,
            OnOffFactoryOption::Forced => 2,
        }
    }

    /// Maps a configuration byte to an option; 0 denies, 2 forces, and
    /// anything else leaves the factory setting.
    pub fn from_byte(b: u8) -> (r: OnOffFactoryOption)
        ensures
            b == 0 ==> r == OnOffFactoryOption::Denied,
            b == 2 ==> r == OnOffFactoryOption::Forced,
            b != 0 && b != 2 ==> r == OnOffFactoryOption::Factory,
    {
        match b {
            0 => OnOffFactoryOption::Denied,
            2 => OnOffFactoryOption::Forced,
            _ => OnOffFactoryOption::Factory,
        }
    }
}

impl View for OnOffFactoryOption {
    type V = OnOffFactoryOption;

    open spec fn view(&self) -> OnOffFactoryOption {
        *self
    }
}

impl Writeable for OnOffFactoryOption {
    open spec fn wf_v(w: OnOffFactoryOption) -> bool {
        true
    }

    open spec fn enc_v(w: OnOffFactoryOption) -> Seq<u8> {
        seq![w.spec_byte()]
    }

    fn write(&self, buffer: &mut Vec<u8>) {
        buffer.push(self.byte());
        assert(buffer@ =~= old(buffer)@ + Self::enc_v(self@));
    }
}

impl Readable for OnOffFactoryOption {
    open spec fn dec_v(s: Seq<u8>) -> Option<(OnOffFactoryOption, int)> {
        if s.len() < 1 {
            None
        } else if s[0] == 0 {
            Some((OnOffFactoryOption::Denied, 1int))
        } else if s[0] == 1 {
            Some((OnOffFactoryOption::Factory, 1int))
        } else if s[0] == 2 {
            Some((OnOffFactoryOption::Forced, 1int))
        } else {
            None
        }
    }

    open spec fn reads_to_end() -> bool {
        false
    }

    proof fn lemma_dec_sound(s: Seq<u8>) {
        if s.len() >= 1 && s[0] <= 2 {
            if let Some((w, n)) = Self::dec_v(s) {
                assert(Self::enc_v(w) =~= s.take(1));
            }
        }
    }

    proof fn lemma_dec_complete(w: OnOffFactoryOption, rest: Seq<u8>) {
        assert((Self::enc_v(w) + rest)[0] == w.spec_byte());
    }

    fn read(buf: &[u8], pos: &mut usize) -> (r: Result<OnOffFactoryOption, Error>) {
        let ghost s = buf@.skip(*pos as int);
        let b = match u8::read(buf, pos) {
            Ok(b) => b,
            Err(e) => {
                return Err(e);
            },
        };
        assert(s[0] == b);
        if b == 0 {
            Ok(OnOffFactoryOption::Denied)
        } else if b == 1 {
            Ok(OnOffFactoryOption::Factory)
        } else if b == 2 {
            Ok(OnOffFactoryOption::Forced)
        } else {
            Err(Error::InvalidDiscriminant)
        }
    }
}

/// The kind of a collision event reported by a client.
#[derive(Debug, Clone, Copy, PartialEq, Eq, Structural)]
pub enum CollisionType {
    /// A collision with another car; the event carries the other car's id.
    CarCollision,
    /// A collision with the world.
    WorldCollision,
    /// A collision of unknown kind.
    UnknownCollision,
}

impl CollisionType {
    /// The wire byte of this collision kind.
    pub open spec fn spec_byte(self) -> u8 {
        match self {
            CollisionType::CarCollision => 0xa,
            CollisionType::WorldCollision => 0xb,
            CollisionType::UnknownCollision => 0xc,
        }
    }

    /// Returns the wire byte of this collision kind.
    pub fn byte(self) -> (r: u8)
        ensures
            r == self.spec_byte(),
    {
        match self {
            CollisionType::CarCollision => 0xa,
            CollisionType::WorldCollision => 0xb,
            CollisionType::UnknownCollision => 0xc,
        }
    }
}

impl View for CollisionType {
    type V = CollisionType;

    open spec fn view(&self) -> CollisionType {
        *self
    }
}

impl Writeable for CollisionType {
    open spec fn wf_v(w: CollisionType) -> bool {
        true
    }

    open spec fn enc_v(w: CollisionType) -> Seq<u8> {
        seq![w.spec_byte()]
    }

    fn write(&self, buffer: &mut Vec<u8>) {
        buffer.push(self.byte());
        assert(buffer@ =~= old(buffer)@ + Self::enc_v(self@));
    }
}

impl Readable for CollisionType {
    open spec fn dec_v(s: Seq<u8>) -> Option<(CollisionType, int)> {
        if s.len() < 1 {
            None
        } else if s[0] == 0xa {
            Some((CollisionType::CarCollision, 1int))
        } else if s[0] == 0xb {
            Some((CollisionType::WorldCollision, 1int))
        } else if s[0] == 0xc {
            Some((CollisionType::UnknownCollision, 1int))
        } else {
            None
        }
    }

    open spec fn reads_to_end() -> bool {
        false
    }

    proof fn lemma_dec_sound(s: Seq<u8>) {
        if s.len() >= 1 && 0xa <= s[0] <= 0xc {
            if let Some((w, n)) = Self::dec_v(s) {
                assert(Self::enc_v(w) =~= s.take(1));
            }
        }
    }

    proof fn lemma_dec_complete(w: CollisionType, rest: Seq<u8>) {
        assert((Self::enc_v(w) + rest)[0] == w.spec_byte());
    }

    fn read(buf: &[u8], pos: &mut usize) -> (r: Result<CollisionType, Error>) {
        let ghost s = buf@.skip(*pos as int);
        let b = match u8::read(buf, pos) {
            Ok(b) => b,
            Err(e) => {
                return Err(e);
            },
        };
        assert(s[0] == b);
        if b == 0xa {
            Ok(CollisionType::CarCollision)
        } else if b == 0xb {
            Ok(CollisionType::WorldCollision)
        } else if b == 0xc {
            Ok(CollisionType::UnknownCollision)
        } else {
            Err(Error::InvalidDiscriminant)
        }
    }
}

} // verus!
