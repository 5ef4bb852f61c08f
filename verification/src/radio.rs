//! Radio slots and authenticated, frequency-hopping messages.
//!
//! A message is 32 bytes: a 30-byte payload followed by a 16-bit code over the
//! shared secret, the tick of sending and the payload.
use vstd::prelude::*;

use crate::class::Class;

verus! {

/// Start value of the 64-bit FNV-1a hash.
pub const FNV_OFFSET: u64 = 0xcbf29ce484222325;

/// Multiplier of the 64-bit FNV-1a hash.
pub const FNV_PRIME: u64 = 0x00000100000001B3;

/// Number of channels that the hopping sequence runs over.
pub const CHANNELS: u64 = 10;

/// The four bytes of `x`, least significant first.
pub open spec fn le32(x: u32) -> Seq<u8> {
    seq![
        (x & 0xff) as u8,
        ((x >> 8) & 0xff) as u8,
        ((x >> 16) & 0xff) as u8,
        ((x >> 24) & 0xff) as u8,
    ]
}

/// The two bytes of `x`, least significant first.
pub open spec fn le16(x: u16) -> Seq<u8> {
    seq![(x & 0xff) as u8, ((x >> 8) & 0xff) as u8]
}

/// One byte of FNV-1a: xor the byte in, then multiply modulo 2^64.
pub open spec fn fnv_step(hash: u64, byte: u8) -> u64 {
    (((hash ^ (byte as u64)) * FNV_PRIME) % 0x1_0000_0000_0000_0000) as u64
}

/// FNV-1a over `bytes`, from the state `hash`.
pub open spec fn fnv(hash: u64, bytes: Seq<u8>) -> u64
    decreases bytes.len(),
{
    if bytes.len() == 0 {
        hash
    } else {
        fnv_step(fnv(hash, bytes.drop_last()), bytes.last())
    }
}

/// The 64-bit digest of a secret, a tick and a payload.
pub open spec fn digest(secret: u32, tick: u32, payload: Seq<u8>) -> u64 {
    fnv(fnv(fnv(FNV_OFFSET, le32(secret)), le32(tick)), payload)
}

/// The channel (0 to 9) on which ships that share `secret` and `offset` meet at `tick`.
pub open spec fn channel_of(secret: u32, offset: nat, tick: u32) -> nat {
    ((digest(secret, tick, Seq::empty()) % CHANNELS) as nat + offset) % 10
}

/// The authentication code: the digest folded to 16 bits.
pub open spec fn hmac_of(secret: u32, tick: u32, payload: Seq<u8>) -> u16 {
    let hash = digest(secret, tick, payload);
    (hash ^ (hash >> 16) ^ (hash >> 32) ^ (hash >> 48)) as u16
}

/// The signed message that carries `payload`.
pub open spec fn message_of(secret: u32, tick: u32, payload: Seq<u8>) -> Seq<u8> {
    payload + le16(hmac_of(secret, tick, payload))
}

/// Whether `message` carries the code that belongs to its first 30 bytes.
pub open spec fn authentic(secret: u32, tick: u32, message: Seq<u8>) -> bool {
    message.subrange(30, 32) == le16(hmac_of(secret, tick, message.subrange(0, 30)))
}

fn hash_byte(hash: u64, byte: u8) -> (next: u64)
    ensures
        next == fnv_step(hash, byte),
{
    (hash ^ (byte as u64)).wrapping_mul(FNV_PRIME)
}

fn hash_u32(hash: u64, x: u32) -> (next: u64)
    ensures
        next == fnv(hash, le32(x)),
{
    proof {
        reveal_with_fuel(fnv, 5);
        let b = le32(x);
        assert(b.drop_last() =~= seq![b[0], b[1], b[2]]);
        assert(b.drop_last().drop_last() =~= seq![b[0], b[1]]);
        assert(b.drop_last().drop_last().drop_last() =~= seq![b[0]]);
        assert(b.drop_last().drop_last().drop_last().drop_last() =~= Seq::<u8>::empty());
    }
    let mut h: u64 = hash_byte(hash, (x & 0xff) as u8);
    h = hash_byte(h, ((x >> 8) & 0xff) as u8);
    h = hash_byte(h, ((x >> 16) & 0xff) as u8);
    hash_byte(h, ((x >> 24) & 0xff) as u8)
}

fn hash_payload(hash: u64, payload: &[u8; 30]) -> (next: u64)
    ensures
        next == fnv(hash, payload@),
{
    let mut h: u64 = hash;
    let mut i: usize = 0;
    while i < 30
        invariant
            0 <= i <= 30,
            h == fnv(hash, payload@.take(i as int)),
        decreases 30 - i,
    {
        proof {
            let next = payload@.take(i as int + 1);
            assert(next.drop_last() =~= payload@.take(i as int));
            assert(next.last() == payload@[i as int]);
        }
        h = hash_byte(h, payload[i]);
        i = i + 1;
    }
    assert(payload@.take(30) =~= payload@);
    h
}

/// Permission to read one radio at one tick.
#[derive(Clone, Copy, Debug, PartialEq, Eq, Structural)]
pub struct ReceiveToken {
    pub radio_index: usize,
    pub valid_tick: u32,
}

impl ReceiveToken {
    /// The radio to read at `tick`: the token's own radio at the tick that it was
    /// made for, none at any other.
    pub fn receive(&self, tick: u32) -> (radio: Option<usize>)
        ensures
            radio == (if tick == self.valid_tick { Some(self.radio_index) } else { None }),
    {
        if tick != self.valid_tick {
            return None;
        }
        Some(self.radio_index)
    }
}

/// Hands out a ship's radios, each at most once per tick.
#[derive(Clone, Copy, Debug, PartialEq, Eq, Structural)]
pub struct RadioManager {
    pub num_radios: usize,
    pub next_radio_index: usize,
    pub last_tick: u32,
}

impl RadioManager {
    /// The manager's own view of `tick`: how many radios are in use then.
    pub open spec fn used_at(self, tick: u32) -> nat {
        if self.last_tick != tick || self.last_tick == u32::MAX {
            0
        } else {
            self.next_radio_index as nat
        }
    }

    /// The state in which `used` radios have been handed out at `tick`.
    pub open spec fn with_used(self, tick: u32, used: nat) -> RadioManager {
        RadioManager { num_radios: self.num_radios, next_radio_index: used as usize, last_tick: tick }
    }

    /// The state after a radio has been asked for at `tick`.
    pub open spec fn after_take(self, tick: u32) -> RadioManager {
        if self.used_at(tick) < self.num_radios {
            self.with_used(tick, self.used_at(tick) + 1)
        } else {
            self.with_used(tick, self.used_at(tick))
        }
    }

    /// The radio that a request at `tick` gets.
    pub open spec fn taken(self, tick: u32) -> Option<usize> {
        if self.used_at(tick) < self.num_radios {
            Some(self.used_at(tick) as usize)
        } else {
            None
        }
    }

    /// A manager for a ship of class `class`.
    pub fn new(class: Class) -> (manager: Self)
        ensures
            manager.num_radios == class.radios(),
            manager.next_radio_index == 0,
            manager.last_tick == u32::MAX,
    {
        let num_radios: usize = match class {
            Class::Cruiser => 8,
            Class::Frigate => 4,
            _ => 1,
        };
        RadioManager { num_radios, next_radio_index: 0, last_tick: u32::MAX }
    }

    /// Starts over with the first radio when `tick` is new.
    pub fn update_tick(&mut self, tick: u32)
        ensures
            *final(self) == old(self).with_used(tick, old(self).used_at(tick)),
    {
        if self.last_tick != tick || self.last_tick == u32::MAX {
            self.next_radio_index = 0;
            self.last_tick = tick;
        }
    }

    /// Whether some radio is left at `tick`.
    pub fn avail(&mut self, tick: u32) -> (left: bool)
        ensures
            left == (old(self).used_at(tick) < old(self).num_radios),
            *final(self) == old(self).with_used(tick, old(self).used_at(tick)),
    {
        self.update_tick(tick);
        self.next_radio_index < self.num_radios
    }

    /// The radio to send on at `tick`, if one is left.
    pub fn transmit(&mut self, tick: u32) -> (radio: Option<usize>)
        ensures
            radio == old(self).taken(tick),
            *final(self) == old(self).after_take(tick),
    {
        self.update_tick(tick);
        let idx: usize = self.next_radio_index;
        if idx < self.num_radios {
            self.next_radio_index = idx + 1;
            Some(idx)
        } else {
            None
        }
    }

    /// Reserves a radio at `tick` for reading at the tick that follows.
    pub fn prepare_receive(&mut self, tick: u32) -> (token: Option<ReceiveToken>)
        requires
            tick < u32::MAX,
        ensures
            token == (match old(self).taken(tick) {
                Some(idx) => Some(
                    (ReceiveToken { radio_index: idx, valid_tick: (tick + 1) as u32 }),
                ),
                None => None::<ReceiveToken>,
            }),
            *final(self) == old(self).after_take(tick),
    {
        self.update_tick(tick);
        let idx: usize = self.next_radio_index;
        if idx < self.num_radios {
            self.next_radio_index = idx + 1;
            Some(ReceiveToken { radio_index: idx, valid_tick: tick + 1 })
        } else {
            None
        }
    }
}

/// A message ready to go out: which radio, on which channel, with which bytes.
#[derive(Clone, Copy, Debug, PartialEq, Eq)]
pub struct Transmission {
    pub radio_index: usize,
    pub channel: usize,
    pub message: [u8; 32],
}

/// A radio link with deterministic frequency hopping and message authentication.
#[derive(Clone, Copy, Debug, PartialEq, Eq, Structural)]
pub struct SecureRadio {
    /// The secret shared between the ships.
    pub secret: u32,
    /// Shifts the hopping sequence, so that several links do not meet.
    pub channel_offset: usize,
    /// The radio reserved for the next read.
    pub receive_token: Option<ReceiveToken>,
}

/// The tick before `tick`; tick 0 has none and stands for itself.
pub open spec fn tick_before(tick: u32) -> u32 {
    if tick == 0 {
        0
    } else {
        (tick - 1) as u32
    }
}

impl SecureRadio {
    /// Whether the link takes what was heard at `tick`: a radio was reserved for this
    /// tick, and the message carries the code of this link's secret for the tick before.
    pub open spec fn accepts(self, tick: u32, heard: Option<[u8; 32]>) -> bool {
        match (self.receive_token, heard) {
            (Some(token), Some(message)) => token.valid_tick == tick && authentic(
                self.secret,
                tick_before(tick),
                message@,
            ),
            _ => false,
        }
    }

    /// A link with the given secret and channel offset, and no radio reserved.
    pub fn new(secret: u32, channel_offset: usize) -> (radio: Self)
        ensures
            radio.secret == secret,
            radio.channel_offset == channel_offset,
            radio.receive_token is None,
    {
        SecureRadio { secret, channel_offset, receive_token: None }
    }

    /// Whether the shared manager has a radio left at `tick`.
    pub fn avail(&self, manager: &mut RadioManager, tick: u32) -> (left: bool)
        ensures
            left == (old(manager).used_at(tick) < old(manager).num_radios),
            *final(manager) == old(manager).with_used(tick, old(manager).used_at(tick)),
    {
        manager.avail(tick)
    }

    /// Signs `payload` and picks the radio and channel that carry it at `tick`;
    /// nothing is sent when no radio is left.
    pub fn transmit(&self, manager: &mut RadioManager, tick: u32, payload: [u8; 30]) -> (sent: Option<Transmission>)
        ensures
            *final(manager) == old(manager).after_take(tick),
            match old(manager).taken(tick) {
                Some(idx) => sent matches Some(t) && t.radio_index == idx && t.channel == channel_of(
                    self.secret,
                    self.channel_offset as nat,
                    tick,
                ) && t.message@ == message_of(self.secret, tick, payload@),
                None => sent is None,
            },
    {
        let channel: usize = self.channel_for_tick(tick);
        let message = self.format_message(payload, tick);
        match manager.transmit(tick) {
            Some(radio_index) => Some(Transmission { radio_index, channel, message }),
            None => None,
        }
    }

    /// Reserves a radio for what is sent at `tick` and read at the next one. Gives the
    /// radio and the channel to tune it to, if one is left; the reservation made
    /// before is given up either way.
    pub fn prepare_receive(&mut self, manager: &mut RadioManager, tick: u32) -> (tuned: Option<(usize, usize)>)
        requires
            tick < u32::MAX,
        ensures
            *final(manager) == old(manager).after_take(tick),
            final(self).secret == old(self).secret,
            final(self).channel_offset == old(self).channel_offset,
            match old(manager).taken(tick) {
                Some(idx) => {
                    &&& tuned matches Some(rc)
                    &&& rc.0 == idx
                    &&& rc.1 == channel_of(old(self).secret, old(self).channel_offset as nat, tick)
                    &&& final(self).receive_token == Some(
                        (ReceiveToken { radio_index: idx, valid_tick: (tick + 1) as u32 }),
                    )
                },
                None => tuned is None && final(self).receive_token is None,
            },
    {
        let channel: usize = self.channel_for_tick(tick);
        let token = manager.prepare_receive(tick);
        self.receive_token = token;
        match token {
            Some(t) => Some((t.radio_index, channel)),
            None => None,
        }
    }

    /// The radio to read at `tick`, if one was reserved for it.
    pub fn reserved_radio(&self, tick: u32) -> (radio: Option<usize>)
        ensures
            radio == (match self.receive_token {
                Some(t) if t.valid_tick == tick => Some(t.radio_index),
                _ => None::<usize>,
            }),
    {
        match self.receive_token {
            Some(token) => token.receive(tick),
            None => None,
        }
    }

    /// The payload of what the reserved radio holds at `tick`, if the link accepts it.
    pub fn receive(&self, tick: u32, heard: Option<[u8; 32]>) -> (payload: Option<[u8; 30]>)
        ensures
            payload is Some <==> self.accepts(tick, heard),
            payload matches Some(p) ==> p@ == heard->0@.subrange(0, 30),
    {
        match self.receive_token {
            Some(token) => {
                if tick != token.valid_tick {
                    return None;
                }
                match heard {
                    Some(message) => {
                        let time_sent: u32 = token.valid_tick.saturating_sub(1);
                        self.parse_message(message, time_sent)
                    },
                    None => None,
                }
            },
            None => None,
        }
    }

    /// The channel (0 to 9) for a given tick.
    pub fn channel_for_tick(&self, tick: u32) -> (channel: usize)
        ensures
            channel == channel_of(self.secret, self.channel_offset as nat, tick),
            channel < 10,
    {
        let hash: u64 = hash_u32(hash_u32(FNV_OFFSET, self.secret), tick);
        let base_channel: usize = (hash % CHANNELS) as usize;
        (base_channel + self.channel_offset % 10) % 10
    }

    /// The 16-bit authentication code of a payload sent at `time_sent`.
    pub fn compute_hmac(secret: u32, time_sent: u32, payload: &[u8; 30]) -> (hmac: u16)
        ensures
            hmac == hmac_of(secret, time_sent, payload@),
    {
        let head: u64 = hash_u32(hash_u32(FNV_OFFSET, secret), time_sent);
        let hash: u64 = hash_payload(head, payload);
        (hash ^ (hash >> 16) ^ (hash >> 32) ^ (hash >> 48)) as u16
    }

    /// The payload followed by its authentication code.
    pub fn format_message(&self, payload: [u8; 30], time_sent: u32) -> (message: [u8; 32])
        ensures
            message@ == message_of(self.secret, time_sent, payload@),
    {
        let hmac: u16 = Self::compute_hmac(self.secret, time_sent, &payload);
        let mut message: [u8; 32] = [0u8; 32];
        let mut i: usize = 0;
        while i < 30
            invariant
                0 <= i <= 30,
                forall|j: int| 0 <= j < i ==> message@[j] == payload@[j],
            decreases 30 - i,
        {
            message[i] = payload[i];
            i = i + 1;
        }
        message[30] = (hmac & 0xff) as u8;
        message[31] = ((hmac >> 8) & 0xff) as u8;
        message
    }

    /// The payload of `message`, if its code is right for `time_sent`.
    pub fn parse_message(&self, message: [u8; 32], time_sent: u32) -> (payload: Option<[u8; 30]>)
        ensures
            payload is Some <==> authentic(self.secret, time_sent, message@),
            payload matches Some(p) ==> p@ == message@.subrange(0, 30),
    {
        let mut payload: [u8; 30] = [0u8; 30];
        let mut i: usize = 0;
        while i < 30
            invariant
                0 <= i <= 30,
                forall|j: int| 0 <= j < i ==> payload@[j] == message@[j],
            decreases 30 - i,
        {
            payload[i] = message[i];
            i = i + 1;
        }
        assert(payload@ =~= message@.subrange(0, 30));
        let expected_hmac: u16 = Self::compute_hmac(self.secret, time_sent, &payload);
        let low: u8 = (expected_hmac & 0xff) as u8;
        let high: u8 = ((expected_hmac >> 8) & 0xff) as u8;
        proof {
            let code = message@.subrange(30, 32);
            assert(code[0] == message@[30] && code[1] == message@[31]);
            if message@[30] == low && message@[31] == high {
                assert(code =~= le16(expected_hmac));
            }
        }
        if message[30] == low && message[31] == high {
            Some(payload)
        } else {
            None
        }
    }
}

/// A signed message is accepted with the secret and the tick that it was signed
/// with, and gives back the payload.
pub proof fn law_signed_message_is_authentic(secret: u32, tick: u32, payload: Seq<u8>)
    requires
        payload.len() == 30,
    ensures
        message_of(secret, tick, payload).len() == 32,
        authentic(secret, tick, message_of(secret, tick, payload)),
        message_of(secret, tick, payload).subrange(0, 30) == payload,
{
    let message = message_of(secret, tick, payload);
    assert(message.subrange(0, 30) =~= payload);
    assert(message.subrange(30, 32) =~= le16(hmac_of(secret, tick, payload)));
}

/// A message whose code was altered, and whose payload was not, is refused.
pub proof fn law_altered_code_is_refused(secret: u32, tick: u32, message: Seq<u8>, altered: Seq<u8>)
    requires
        message.len() == 32,
        altered.len() == 32,
        authentic(secret, tick, message),
        altered.subrange(0, 30) == message.subrange(0, 30),
        altered != message,
    ensures
        !authentic(secret, tick, altered),
{
    if authentic(secret, tick, altered) {
        assert(altered =~= altered.subrange(0, 30) + altered.subrange(30, 32));
        assert(message =~= message.subrange(0, 30) + message.subrange(30, 32));
    }
}

/// Every channel lies in 0..10.
pub proof fn law_channel_in_range(secret: u32, offset: nat, tick: u32)
    ensures
        channel_of(secret, offset, tick) < 10,
{
}

/// The offset moves every channel of the hopping sequence by the same amount, modulo 10.
pub proof fn law_offset_shifts_channel(secret: u32, offset: nat, tick: u32)
    ensures
        channel_of(secret, offset, tick) == (channel_of(secret, 0, tick) + offset) % 10,
{
}

/// What one ship sends at `tick`, another ship of the same secret and offset that
/// reserved a radio at that tick hears on the channel it tuned to, and accepts at the
/// next tick, and the payload is the one that was sent.
pub proof fn law_receiver_accepts_sender(
    sender: SecureRadio,
    receiver: SecureRadio,
    tick: u32,
    payload: Seq<u8>,
    message: [u8; 32],
    radio_index: usize,
)
    requires
        tick < u32::MAX,
        payload.len() == 30,
        sender.secret == receiver.secret,
        sender.channel_offset == receiver.channel_offset,
        message@ == message_of(sender.secret, tick, payload),
        receiver.receive_token == Some(
            (ReceiveToken { radio_index, valid_tick: (tick + 1) as u32 }),
        ),
    ensures
        channel_of(sender.secret, sender.channel_offset as nat, tick) == channel_of(
            receiver.secret,
            receiver.channel_offset as nat,
            tick,
        ),
        receiver.accepts((tick + 1) as u32, Some(message)),
        message@.subrange(0, 30) == payload,
{
    law_signed_message_is_authentic(sender.secret, tick, payload);
}

/// A reservation is good for one tick: nothing is accepted at any other.
pub proof fn law_reservation_lapses(radio: SecureRadio, token: ReceiveToken, tick: u32, heard: Option<[u8; 32]>)
    requires
        radio.receive_token == Some(token),
        tick != token.valid_tick,
    ensures
        !radio.accepts(tick, heard),
{
}

/// The manager after `n` requests at `tick`.
pub open spec fn after_takes(manager: RadioManager, tick: u32, n: nat) -> RadioManager
    decreases n,
{
    if n == 0 {
        manager
    } else {
        after_takes(manager, tick, (n - 1) as nat).after_take(tick)
    }
}

/// Requests at one tick get the radios in order, each radio once, until none is left.
/// (The last representable tick is left out: there the manager starts over with every
/// request.)
pub proof fn law_each_radio_once(manager: RadioManager, tick: u32, n: nat)
    requires
        tick < u32::MAX,
    ensures
        after_takes(manager, tick, n).num_radios == manager.num_radios,
        after_takes(manager, tick, n).taken(tick) == (if manager.used_at(tick) + n
            < manager.num_radios {
            Some((manager.used_at(tick) + n) as usize)
        } else {
            None
        }),
    decreases n,
{
    lemma_used_after_takes(manager, tick, n);
}

proof fn lemma_used_after_takes(manager: RadioManager, tick: u32, n: nat)
    requires
        tick < u32::MAX,
    ensures
        after_takes(manager, tick, n).num_radios == manager.num_radios,
        manager.used_at(tick) + n <= manager.num_radios ==> after_takes(
            manager,
            tick,
            n,
        ).used_at(tick) == manager.used_at(tick) + n,
        manager.used_at(tick) + n >= manager.num_radios ==> after_takes(
            manager,
            tick,
            n,
        ).used_at(tick) >= manager.num_radios,
    decreases n,
{
    if n > 0 {
        lemma_used_after_takes(manager, tick, (n - 1) as nat);
    }
}

/// A new tick makes every radio available again.
pub proof fn law_new_tick_frees_radios(manager: RadioManager, tick: u32)
    requires
        manager.last_tick != tick,
    ensures
        manager.used_at(tick) == 0,
{
}

// The prime has the inverse 0xce965057aff6957b modulo 2^64.
proof fn lemma_prime_cancels(x: u64)
    ensures
        (((x * FNV_PRIME) % 0x1_0000_0000_0000_0000) * 0xce965057aff6957bint)
            % 0x1_0000_0000_0000_0000 == x,
{
    let modulus: int = 0x1_0000_0000_0000_0000;
    let inverse: int = 0xce965057aff6957b;
    let product: int = FNV_PRIME * inverse;
    assert(0x00000100000001B3int * 0xce965057aff6957bint == 0x1_0000_0000_0000_0000int
        * 0xce9650590fint + 1) by (nonlinear_arith);
    vstd::arithmetic::div_mod::lemma_mul_mod_noop_left(x * FNV_PRIME, inverse, modulus);
    vstd::arithmetic::mul::lemma_mul_is_associative(x as int, FNV_PRIME as int, inverse);
    vstd::arithmetic::div_mod::lemma_mul_mod_noop_right(x as int, product, modulus);
    vstd::arithmetic::div_mod::lemma_small_mod(x as nat, modulus as nat);
}

proof fn lemma_step_separates(h1: u64, b1: u8, h2: u64, b2: u8)
    requires
        h1 ^ (b1 as u64) != h2 ^ (b2 as u64),
    ensures
        fnv_step(h1, b1) != fnv_step(h2, b2),
{
    lemma_prime_cancels(h1 ^ (b1 as u64));
    lemma_prime_cancels(h2 ^ (b2 as u64));
}

proof fn lemma_fnv_separates(h1: u64, h2: u64, bytes: Seq<u8>)
    requires
        h1 != h2,
    ensures
        fnv(h1, bytes) != fnv(h2, bytes),
    decreases bytes.len(),
{
    if bytes.len() > 0 {
        lemma_fnv_separates(h1, h2, bytes.drop_last());
        let f1 = fnv(h1, bytes.drop_last());
        let f2 = fnv(h2, bytes.drop_last());
        let b = bytes.last() as u64;
        assert(f1 ^ b != f2 ^ b) by (bit_vector)
            requires
                f1 != f2,
        ;
        lemma_step_separates(f1, bytes.last(), f2, bytes.last());
    }
}

proof fn lemma_fnv_concat(hash: u64, a: Seq<u8>, b: Seq<u8>)
    ensures
        fnv(hash, a + b) == fnv(fnv(hash, a), b),
    decreases b.len(),
{
    if b.len() == 0 {
        assert(a + b =~= a);
    } else {
        assert((a + b).drop_last() =~= a + b.drop_last());
        lemma_fnv_concat(hash, a, b.drop_last());
    }
}

/// Changing one byte of a payload changes the 64-bit digest that the authentication
/// code is folded from.
pub proof fn law_digest_sees_every_byte(secret: u32, tick: u32, payload: Seq<u8>, at: int, byte: u8)
    requires
        0 <= at < payload.len(),
        byte != payload[at],
    ensures
        digest(secret, tick, payload.update(at, byte)) != digest(secret, tick, payload),
{
    let start = fnv(fnv(FNV_OFFSET, le32(secret)), le32(tick));
    let head = payload.take(at);
    let tail = payload.skip(at + 1);
    let changed = payload.update(at, byte);
    assert(payload =~= (head + seq![payload[at]]) + tail);
    assert(changed =~= (head + seq![byte]) + tail);
    lemma_fnv_concat(start, head + seq![payload[at]], tail);
    lemma_fnv_concat(start, head + seq![byte], tail);
    lemma_fnv_concat(start, head, seq![payload[at]]);
    lemma_fnv_concat(start, head, seq![byte]);
    let h = fnv(start, head);
    reveal_with_fuel(fnv, 2);
    assert(seq![payload[at]].drop_last() =~= Seq::<u8>::empty());
    assert(seq![byte].drop_last() =~= Seq::<u8>::empty());
    let b1 = payload[at] as u64;
    let b2 = byte as u64;
    assert(h ^ b1 != h ^ b2) by (bit_vector)
        requires
            b1 != b2,
    ;
    lemma_step_separates(h, payload[at], h, byte);
    lemma_fnv_separates(fnv(h, seq![payload[at]]), fnv(h, seq![byte]), tail);
}

/// The bytes of a number stand least significant first: each is the number, divided by 256 once
/// for each byte before it, modulo 256.
pub proof fn law_bytes_of_numbers(x: u32, y: u16)
    ensures
        le32(x).len() == 4 && le16(y).len() == 2,
        le32(x)[0] == x % 256,
        le32(x)[1] == (x / 256) % 256,
        le32(x)[2] == (x / 65536) % 256,
        le32(x)[3] == x / 16777216,
        le16(y)[0] == y % 256,
        le16(y)[1] == y / 256,
{
    assert((x & 0xff) as u8 == x % 256) by (bit_vector);
    assert(((x >> 8) & 0xff) as u8 == (x / 256) % 256) by (bit_vector);
    assert(((x >> 16) & 0xff) as u8 == (x / 65536) % 256) by (bit_vector);
    assert(((x >> 24) & 0xff) as u8 == x / 16777216) by (bit_vector);
    assert((y & 0xff) as u8 == y % 256) by (bit_vector);
    assert(((y >> 8) & 0xff) as u8 == y / 256) by (bit_vector);
}

/// The digest is one hash over the bytes of the secret, those of the tick, and the payload, in
/// this order. One more byte is mixed in by xor, and then multiplied by the prime.
pub proof fn law_digest(secret: u32, tick: u32, payload: Seq<u8>, byte: u8)
    ensures
        digest(secret, tick, payload) == fnv(
            0xcbf29ce484222325,
            le32(secret) + le32(tick) + payload,
        ),
        digest(secret, tick, payload.push(byte)) == ((digest(secret, tick, payload) ^ (byte as u64))
            * 0x100000001b3) % 0x1_0000_0000_0000_0000,
        forall|hash: u64| #[trigger] fnv(hash, Seq::empty()) == hash,
        forall|hash: u64, bytes: Seq<u8>|
            #[trigger] fnv(hash, bytes.push(byte)) == ((fnv(hash, bytes) ^ (byte as u64))
                * 0x100000001b3) % 0x1_0000_0000_0000_0000,
{
    lemma_fnv_concat(FNV_OFFSET, le32(secret) + le32(tick), payload);
    lemma_fnv_concat(FNV_OFFSET, le32(secret), le32(tick));
    assert forall|hash: u64, bytes: Seq<u8>|
        #[trigger] fnv(hash, bytes.push(byte)) == ((fnv(hash, bytes) ^ (byte as u64))
            * 0x100000001b3) % 0x1_0000_0000_0000_0000 by {
        assert(bytes.push(byte).drop_last() =~= bytes);
    }
    let start = fnv(fnv(FNV_OFFSET, le32(secret)), le32(tick));
    assert(fnv(start, payload.push(byte)) == ((fnv(start, payload) ^ (byte as u64))
        * 0x100000001b3) % 0x1_0000_0000_0000_0000);
}

/// The code of a message is the xor of the four quarters of the digest of its payload.
pub proof fn law_code_folds_the_digest(secret: u32, tick: u32, payload: Seq<u8>)
    ensures
        ({
            let h = digest(secret, tick, payload);
            let first = (h % 0x1_0000) as u16;
            let second = ((h / 0x1_0000) % 0x1_0000) as u16;
            let third = ((h / 0x1_0000_0000) % 0x1_0000) as u16;
            let fourth = (h / 0x1_0000_0000_0000) as u16;
            hmac_of(secret, tick, payload) == first ^ second ^ third ^ fourth
        }),
{
    let h = digest(secret, tick, payload);
    assert((h ^ (h >> 16) ^ (h >> 32) ^ (h >> 48)) as u16 == ((h % 0x1_0000) as u16) ^ (((h
        / 0x1_0000) % 0x1_0000) as u16) ^ (((h / 0x1_0000_0000) % 0x1_0000) as u16) ^ ((h
        / 0x1_0000_0000_0000) as u16)) by (bit_vector);
}

/// A message is its payload and, behind it, the code for the secret, the tick and the payload,
/// with the lower byte first. It is authentic exactly where those two bytes are right.
pub proof fn law_message_layout(secret: u32, tick: u32, payload: Seq<u8>, message: Seq<u8>)
    requires
        payload.len() == 30,
        message.len() == 32,
    ensures
        ({
            let sent = message_of(secret, tick, payload);
            let code = hmac_of(secret, tick, payload);
            &&& sent.len() == 32
            &&& forall|i: int| 0 <= i < 30 ==> #[trigger] sent[i] == payload[i]
            &&& sent[30] == code % 256 && sent[31] == code / 256
        }),
        ({
            let code = hmac_of(secret, tick, message.take(30));
            authentic(secret, tick, message) <==> message[30] == code % 256 && message[31] == code
                / 256
        }),
{
    law_bytes_of_numbers(0, hmac_of(secret, tick, payload));
    let head = message.take(30);
    assert(message.subrange(0, 30) =~= head);
    let code = hmac_of(secret, tick, head);
    law_bytes_of_numbers(0, code);
    let tail = message.subrange(30, 32);
    assert(tail[0] == message[30] && tail[1] == message[31]);
    if message[30] == code % 256 && message[31] == code / 256 {
        assert(tail =~= le16(code));
    }
}

/// A link takes what was heard exactly where a radio was reserved for this tick, something was
/// heard, and it is authentic for the link's secret and the tick before.
pub proof fn law_what_is_accepted(radio: SecureRadio, tick: u32, heard: Option<[u8; 32]>)
    requires
        tick > 0,
    ensures
        radio.accepts(tick, heard) <==> {
            &&& radio.receive_token is Some
            &&& radio.receive_token->0.valid_tick == tick
            &&& heard is Some
            &&& authentic(radio.secret, (tick - 1) as u32, heard->0@)
        },
{
}

/// The channel without an offset is the digest of the secret and the tick, modulo ten.
pub proof fn law_base_channel(secret: u32, tick: u32)
    ensures
        channel_of(secret, 0, tick) == digest(secret, tick, Seq::empty()) % 10,
{
}

/// Radios count as used only at the tick at which they were handed out; a request changes
/// nothing but the tick and the count, by one where a radio was left.
pub proof fn law_radios_in_use(manager: RadioManager, tick: u32)
    requires
        tick < u32::MAX,
    ensures
        manager.last_tick == tick ==> manager.used_at(tick) == manager.next_radio_index,
        manager.last_tick != tick ==> manager.used_at(tick) == 0,
        ({
            let after = manager.after_take(tick);
            let used = manager.used_at(tick);
            &&& after.num_radios == manager.num_radios && after.last_tick == tick
            &&& manager.taken(tick) is Some <==> used < manager.num_radios
            &&& manager.taken(tick) is Some ==> manager.taken(tick)->0 == used
                && after.next_radio_index == used + 1
            &&& manager.taken(tick) is None ==> after.next_radio_index == used
        }),
{
}

} // verus!
