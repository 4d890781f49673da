//! Handshake state machines. The caller runs the loop: it sends what a step
//! returns, waits up to `RETRY_INTERVAL_MS` for a datagram, and reports
//! either the datagram or the timeout back.
use crate::crypto::{CryptoSession, EphemeralKeyPair};
use crate::message::{
    decode_frame, init_ack_body_ok, init_body_ok, InitAckMessage, InitMessage, KeyExchangeMessage,
    MessageType, frame_of,
};
use vstd::bytes::*;
use vstd::prelude::*;

verus! {

/// Wait between retries of a handshake frame.
pub const RETRY_INTERVAL_MS: u64 = 500;

/// Init frames a receiver sends before giving up.
pub const MAX_INIT_ATTEMPTS: u32 = 20;

/// What the caller does next.
#[derive(Debug)]
pub enum HandshakeStep {
    /// Send this frame, then wait.
    Send(Vec<u8>),
    /// Keep waiting.
    Wait,
    /// The handshake is complete.
    Done,
    /// The handshake failed.
    Failed,
}

/// The receiving side: sends Init until an InitAck arrives. With
/// encryption, the Init carries an ephemeral public key; the sender may
/// answer with its key inline in the InitAck or in a KeyExchange frame,
/// which is answered with this side's key.
pub struct ReceiverHandshake {
    pub init_frame: Vec<u8>,
    pub encrypt: bool,
    /// Init frames sent so far.
    pub attempts: u32,
    pub public_key: [u8; 32],
    pub keypair: Option<EphemeralKeyPair>,
    pub crypto: Option<CryptoSession>,
    pub ack: Option<InitAckMessage>,
    pub init_sent_us: u64,
}

impl ReceiverHandshake {
    /// Starts a handshake at `now_us`; the returned frame is the first Init.
    pub fn start(encrypt: bool, now_us: u64) -> (r: (ReceiverHandshake, Vec<u8>))
        ensures
            r.0.attempts == 1,
            r.0.encrypt == encrypt,
            r.0.ack.is_none(),
            r.0.crypto.is_none(),
            r.1@ == r.0.init_frame@,
            r.0.init_sent_us == now_us,
    {
        let (keypair, public_key) = if encrypt {
            let (k, p) = CryptoSession::new();
            (Some(k), p)
        } else {
            (None, [0u8; 32])
        };
        let init = InitMessage::new(encrypt, public_key, now_us);
        let frame = init.to_bytes();
        let copy = crate::chunk::copy_bytes(frame.as_slice());
        (
            ReceiverHandshake {
                init_frame: frame,
                encrypt,
                attempts: 1,
                public_key,
                keypair,
                crypto: None,
                ack: None,
                init_sent_us: now_us,
            },
            copy,
        )
    }

    /// Whether the handshake has what the transfer needs.
    pub open spec fn is_done(&self) -> bool {
        self.ack is Some && (self.encrypt ==> self.crypto is Some)
    }

    /// No datagram within the retry interval (at `now_us`): resend Init while
    /// attempts remain, stamping the send time for the RTT, else fail.
    pub fn on_timeout(&mut self, now_us: u64) -> (r: HandshakeStep)
        ensures
            r is Send ==> final(self).init_sent_us == now_us,
            !(r is Send) ==> final(self).init_sent_us == old(self).init_sent_us,
            old(self).is_done() ==> r is Done && final(self).attempts == old(self).attempts,
            !old(self).is_done() && old(self).attempts < MAX_INIT_ATTEMPTS ==> final(self).attempts
                == old(self).attempts + 1 && (r matches HandshakeStep::Send(f) && f@ == old(self).init_frame@),
            !old(self).is_done() && old(self).attempts >= MAX_INIT_ATTEMPTS ==> r is Failed
                && final(self).attempts == old(self).attempts,
            final(self).init_frame@ == old(self).init_frame@,
            final(self).ack == old(self).ack,
            final(self).encrypt == old(self).encrypt,
    {
        if self.ack.is_some() && (!self.encrypt || self.crypto.is_some()) {
            return HandshakeStep::Done;
        }
        if self.attempts >= MAX_INIT_ATTEMPTS {
            return HandshakeStep::Failed;
        }
        self.attempts = self.attempts + 1;
        self.init_sent_us = now_us;
        HandshakeStep::Send(crate::chunk::copy_bytes(self.init_frame.as_slice()))
    }

    /// A datagram arrived. An InitAck completes the handshake (keying the
    /// session from its key when encrypted and not keyed yet); a KeyExchange
    /// keys the session and is answered with this side's key. Anything else
    /// is ignored.
    pub fn on_datagram(&mut self, bytes: &[u8]) -> (r: HandshakeStep)
        ensures
            final(self).attempts == old(self).attempts,
            final(self).init_frame@ == old(self).init_frame@,
            final(self).encrypt == old(self).encrypt,
            old(self).ack is Some ==> final(self).ack == old(self).ack,
            crate::message::decode_frame(bytes@, crate::message::MessageType::InitAck) matches Ok(
                b,
            ) && crate::message::init_ack_body_ok(b) ==> final(self).ack is Some,
            r is Done ==> final(self).ack is Some,
            final(self).public_key == old(self).public_key,
            ({
                let fa = decode_frame(bytes@, MessageType::InitAck);
                let fk = decode_frame(bytes@, MessageType::KeyExchange);
                &&& (fa matches Ok(b) && init_ack_body_ok(b) && old(self).encrypt && old(self).crypto is None && old(self).keypair is Some && b[32] == 1 ==> (final(self).crypto matches Some(c) && c.peer_public_key@ == fa->Ok_0.subrange(0, 32))
                    && r is Done)
                &&& (!(fa matches Ok(b) && init_ack_body_ok(b)) && old(self).encrypt && old(self).crypto is None && old(self).keypair is Some && (fk matches Ok(b) && b.len()
                    == 32) ==> (final(self).crypto matches Some(c) && c.peer_public_key@
                    == fk->Ok_0) && (r matches HandshakeStep::Send(f) && f@ == frame_of(
                    MessageType::KeyExchange,
                    old(self).public_key@,
                )))
            }),
    {
        match InitAckMessage::from_bytes(bytes) {
            Ok(ack) => {
                if self.encrypt && self.crypto.is_none() && ack.encryption_enabled {
                    match self.keypair.take() {
                        Some(k) => {
                            self.crypto = Some(CryptoSession::establish(k, ack.server_public_key));
                        },
                        None => {},
                    }
                }
                if self.ack.is_none() {
                    self.ack = Some(ack);
                }
                return if !self.encrypt || self.crypto.is_some() {
                    HandshakeStep::Done
                } else {
                    HandshakeStep::Failed
                };
            },
            Err(_) => {},
        }
        if self.encrypt && self.crypto.is_none() {
            match KeyExchangeMessage::from_bytes(bytes) {
                Ok(peer) => {
                    match self.keypair.take() {
                        Some(k) => {
                            self.crypto = Some(CryptoSession::establish(k, peer.public_key));
                            let mine = KeyExchangeMessage { public_key: self.public_key };
                            return HandshakeStep::Send(mine.to_bytes());
                        },
                        None => {},
                    }
                },
                Err(_) => {},
            }
        }
        HandshakeStep::Wait
    }
}

/// Whether 32 bytes are all zero.
pub open spec fn zero_key(k: Seq<u8>) -> bool {
    forall|i: int| 0 <= i < 32 ==> k[i] == 0
}

/// Whether a key is all zero bytes (a plaintext session's placeholder).
pub fn is_zero_key(k: &[u8; 32]) -> (r: bool)
    ensures
        r == zero_key(k@),
{
    let mut i: usize = 0;
    while i < 32
        invariant
            i <= 32,
            k@.len() == 32,
            forall|j: int| 0 <= j < i ==> k@[j] == 0,
        decreases 32 - i,
    {
        if k[i] != 0 {
            return false;
        }
        i = i + 1;
    }
    true
}

/// The sending side: waits for Init; when the Init asks for encryption, keys the session from
/// the Init's key when it carries one, else sends its own key in KeyExchange
/// frames until the peer's arrives.
pub struct SenderHandshake {
    pub encrypt: bool,
    pub client_timestamp_us: Option<u64>,
    pub public_key: [u8; 32],
    pub keypair: Option<EphemeralKeyPair>,
    pub crypto: Option<CryptoSession>,
    /// Whether the peer's key is awaited in a KeyExchange frame.
    pub awaiting_key: bool,
}

impl SenderHandshake {
    /// A handshake waiting for an Init; whether the session is encrypted is
    /// the Init's request. A fresh key pair is ready for it.
    pub fn new() -> (r: SenderHandshake)
        ensures
            !r.encrypt,
            r.client_timestamp_us.is_none(),
            r.crypto.is_none(),
            r.keypair is Some,
            !r.awaiting_key,
    {
        let (k, public_key) = CryptoSession::new();
        let keypair = Some(k);
        SenderHandshake {
            encrypt: false,
            client_timestamp_us: None,
            public_key,
            keypair,
            crypto: None,
            awaiting_key: false,
        }
    }

    pub open spec fn is_done(&self) -> bool {
        self.client_timestamp_us is Some && (self.encrypt ==> self.crypto is Some)
    }

    fn key_frame(&self) -> (r: Vec<u8>)
        ensures
            r@ == frame_of(MessageType::KeyExchange, self.public_key@),
    {
        KeyExchangeMessage { public_key: self.public_key }.to_bytes()
    }

    /// A datagram arrived. An Init is recorded; with encryption it keys the
    /// session from its key if that is not zero, else the KeyExchange round
    /// starts. A KeyExchange, while one is awaited, keys the session.
    pub fn on_datagram(&mut self, bytes: &[u8]) -> (r: HandshakeStep)
        ensures
            r is Done ==> final(self).is_done(),
            old(self).client_timestamp_us is Some ==> final(self).encrypt == old(self).encrypt,
            final(self).public_key == old(self).public_key,
            old(self).is_done() ==> r is Done,
            ({
                let fr = decode_frame(bytes@, MessageType::Init);
                old(self).client_timestamp_us is None ==> if fr matches Ok(b) && init_body_ok(b) {
                    let b = fr->Ok_0;
                    let key = b.subrange(0, 32);
                    let asked = b[32] == 1;
                    &&& final(self).client_timestamp_us == Some(
                        spec_u64_from_le_bytes(b.subrange(45, 53)),
                    )
                    &&& final(self).encrypt == asked
                    &&& (!asked ==> r is Done)
                    &&& (asked && old(self).keypair is Some && !zero_key(key) ==> (
                    final(self).crypto matches Some(c) && c.peer_public_key@ == key) && r is Done)
                    &&& (asked && zero_key(key) ==> final(self).awaiting_key && (
                    r matches HandshakeStep::Send(f) && f@ == frame_of(
                        MessageType::KeyExchange,
                        old(self).public_key@,
                    )))
                } else {
                    r is Wait && final(self).client_timestamp_us is None
                }
            }),
            ({
                let fk = decode_frame(bytes@, MessageType::KeyExchange);
                old(self).client_timestamp_us is Some && !old(self).is_done() && old(self).awaiting_key && old(self).keypair is Some && (fk matches Ok(b) && b.len() == 32)
                    ==> (final(self).crypto matches Some(c) && c.peer_public_key@ == fk->Ok_0)
                    && !final(self).awaiting_key && r is Done
            }),
    {
        if self.client_timestamp_us.is_some() && (!self.encrypt || self.crypto.is_some()) {
            return HandshakeStep::Done;
        }
        if self.client_timestamp_us.is_none() {
            match InitMessage::from_bytes(bytes) {
                Ok(init) => {
                    self.client_timestamp_us = Some(init.timestamp_us);
                    self.encrypt = init.encryption_enabled;
                    if !self.encrypt {
                        return HandshakeStep::Done;
                    }
                    if !is_zero_key(&init.client_public_key) {
                        match self.keypair.take() {
                            Some(k) => {
                                self.crypto = Some(
                                    CryptoSession::establish(k, init.client_public_key),
                                );
                                return HandshakeStep::Done;
                            },
                            None => {
                                return HandshakeStep::Failed;
                            },
                        }
                    }
                    self.awaiting_key = true;
                    return HandshakeStep::Send(self.key_frame());
                },
                Err(_) => {
                    return HandshakeStep::Wait;
                },
            }
        }
        if self.awaiting_key {
            match KeyExchangeMessage::from_bytes(bytes) {
                Ok(peer) => {
                    match self.keypair.take() {
                        Some(k) => {
                            self.crypto = Some(CryptoSession::establish(k, peer.public_key));
                            self.awaiting_key = false;
                            return HandshakeStep::Done;
                        },
                        None => {
                            return HandshakeStep::Failed;
                        },
                    }
                },
                Err(_) => {},
            }
        }
        HandshakeStep::Wait
    }

    /// No datagram within the retry interval: resend this side's key while
    /// one is awaited.
    pub fn on_timeout(&self) -> (r: HandshakeStep)
        ensures
            self.is_done() ==> r is Done,
            !self.is_done() && !self.awaiting_key ==> r is Wait,
            !self.is_done() && self.awaiting_key ==> r is Send,
    {
        if self.client_timestamp_us.is_some() && (!self.encrypt || self.crypto.is_some()) {
            return HandshakeStep::Done;
        }
        if self.awaiting_key {
            HandshakeStep::Send(self.key_frame())
        } else {
            HandshakeStep::Wait
        }
    }

    /// The keyed session, once established; the handshake keeps no copy.
    pub fn take_crypto(&mut self) -> (r: Option<CryptoSession>)
        ensures
            r == old(self).crypto,
            final(self).crypto.is_none(),
    {
        self.crypto.take()
    }
}

impl ReceiverHandshake {
    /// The keyed session, once established; the handshake keeps no copy.
    pub fn take_crypto(&mut self) -> (r: Option<CryptoSession>)
        ensures
            r == old(self).crypto,
            final(self).crypto.is_none(),
    {
        self.crypto.take()
    }
}

} // verus!
