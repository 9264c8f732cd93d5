//! The `SCM_RIGHTS` control message that carries descriptors over a Unix domain socket.
//!
//! A message is one control message header, which gives its own length, the socket level and the
//! message type, followed by the descriptors, one C `int` each. One payload byte travels with it,
//! as a message without payload may not be delivered at all.

use vstd::prelude::*;

use crate::bytes::{decode_uint, encode_uint, ByteOrder};

verus! {

/// A descriptor, as the kernel numbers it.
pub type RawFd = i32;

/// The width of a machine word, which is the type of a control message's length field.
#[derive(Debug, Clone, Copy, PartialEq, Eq, Structural)]
pub enum WordSize {
    /// 32-bit words.
    Four,
    /// 64-bit words.
    Eight,
}

/// What the layout of a control message depends on.
#[derive(Debug, Clone, Copy, PartialEq, Eq, Structural)]
pub struct ControlAbi {
    /// The byte order of integers.
    pub order: ByteOrder,
    /// The width of the length field, to which headers are aligned too.
    pub word: WordSize,
    /// The socket level that descriptor messages carry, `SOL_SOCKET`.
    pub level: i32,
    /// The message type of descriptor messages, `SCM_RIGHTS`.
    pub rights: i32,
}

/// The two buffers of one message.
pub struct Message {
    /// The ordinary data.
    pub payload: Vec<u8>,
    /// The control data.
    pub control: Vec<u8>,
}

/// What `recvmsg` left behind.
pub struct Reply {
    /// Its result: how many payload bytes came, or a negative number if it failed.
    pub received: isize,
    /// The control buffer that it was given, with what it wrote there.
    pub control: Vec<u8>,
    /// The length that it gave for the control data.
    pub control_len: usize,
}

/// Why descriptors did not get across.
#[derive(Debug, Clone, Copy, PartialEq, Eq, Structural)]
pub enum TransferError {
    /// The system call failed, and the operating system knows why.
    Os,
    /// No control message came with the payload.
    NoControlMessage,
    /// A control message came, but not one for descriptors.
    InvalidControlMessage,
}

impl TransferError {
    /// What to say of this error; `None` where only the operating system can say.
    pub fn text(&self) -> (text: Option<&'static str>)
        ensures
            match *self {
                TransferError::Os => text is None,
                TransferError::NoControlMessage => text is Some && text->0@
                    == "No control message received"@,
                TransferError::InvalidControlMessage => text is Some && text->0@
                    == "Received invalid control message"@,
            },
    {
        match self {
            TransferError::Os => None,
            TransferError::NoControlMessage => Some("No control message received"),
            TransferError::InvalidControlMessage => Some("Received invalid control message"),
        }
    }
}

/// `libc::SOL_SOCKET`, a constant that depends on the machine: on Linux it is 0xffff for MIPS and
/// SPARC, and 1 for every other.
#[verifier::external_body]
fn sol_socket() -> (level: i32)
    ensures
        level == 1 || level == 0xffff,
{
    libc::SOL_SOCKET
}

/// `libc::SCM_RIGHTS`, a constant that is 1 on Linux.
#[verifier::external_body]
fn scm_rights() -> (rights: i32)
    ensures
        rights == 1,
{
    libc::SCM_RIGHTS
}

/// `u32::to_ne_bytes`: the bytes of `value` as they lie in memory. Which of the two byte orders
/// that is depends on the machine.
#[verifier::external_body]
fn to_ne_bytes(value: u32) -> (bytes: [u8; 4])
    ensures
        bytes@ == ByteOrder::Little.encode(value as nat, 4) || bytes@ == ByteOrder::Big.encode(
            value as nat,
            4,
        ),
{
    value.to_ne_bytes()
}

/// How many bytes one descriptor takes.
pub const FD_SIZE: u32 = 4;

/// The unsigned number with the bits of `value`.
pub open spec fn unsigned(value: i32) -> nat {
    if value < 0 {
        (value + 0x1_0000_0000) as nat
    } else {
        value as nat
    }
}

/// The signed number with the bits of `value`.
pub open spec fn signed(value: nat) -> i32 {
    if value >= 0x8000_0000 {
        (value - 0x1_0000_0000) as i32
    } else {
        value as i32
    }
}

impl Reply {
    /// The control buffer has room for `slots` descriptors, and the header of a descriptor message
    /// in it gives a length that covers at least the header.
    pub open spec fn valid(self, abi: ControlAbi, slots: nat) -> bool {
        &&& self.control@.len() >= abi.message_len(FD_SIZE as nat * slots)
        &&& self.received >= 0 && self.control_len >= abi.header_size() && abi.carries_rights(
            self.control@,
        ) ==> abi.claimed_len(self.control@) >= abi.message_len(0)
    }

    /// Whether this reply is one that a receiver with `slots` places for descriptors can read.
    pub fn is_valid(&self, abi: &ControlAbi, slots: usize) -> (valid: bool)
        ensures
            valid == self.valid(*abi, slots as nat),
            ({
                let c = self.control@;
                let w: int = if abi.word is Eight {
                    8
                } else {
                    4
                };
                let h = w + 8;
                let int_field = (|p: int|
                    if abi.order is Little {
                        c[p] + 0x100 * c[p + 1] + 0x1_0000 * c[p + 2] + 0x100_0000 * c[p + 3]
                    } else {
                        c[p + 3] + 0x100 * c[p + 2] + 0x1_0000 * c[p + 1] + 0x100_0000 * c[p]
                    });
                let length = if abi.word is Four {
                    int_field(0)
                } else if abi.order is Little {
                    int_field(0) + 0x1_0000_0000 * int_field(4)
                } else {
                    int_field(4) + 0x1_0000_0000 * int_field(0)
                };
                valid <==> {
                    &&& c.len() >= h + 4 * slots
                    &&& self.received >= 0 && self.control_len >= h && (int_field(w) - abi.level)
                        % 0x1_0000_0000 == 0 && (int_field(w + 4) - abi.rights) % 0x1_0000_0000
                        == 0 ==> length >= h
                }
            }),
    {
        proof {
            law_valid_reply(*abi, *self, slots as nat);
        }
        let control: &[u8] = self.control.as_slice();
        let word: usize = abi.word();
        if control.len() < word + 8 || (control.len() - (word + 8)) / (FD_SIZE as usize) < slots {
            return false;
        }
        if self.received < 0 || self.control_len < word + 8 {
            true
        } else if abi.decode_int(control, word) != abi.level || abi.decode_int(control, word + 4)
            != abi.rights {
            true
        } else {
            decode_uint(abi.order, control, 0, word) >= abi.cmsg_len(0) as u64
        }
    }
}

impl ControlAbi {
    /// The size of a machine word.
    pub open spec fn word_size(self) -> nat {
        match self.word {
            WordSize::Four => 4,
            WordSize::Eight => 8,
        }
    }

    /// The size of a control message header: a word and two C `int`s.
    pub open spec fn header_size(self) -> nat {
        self.word_size() + 8
    }

    /// The least multiple of the word size that is not below `len`.
    pub open spec fn align(self, len: nat) -> nat {
        (len + self.word_size() - 1) as nat / self.word_size() * self.word_size()
    }

    /// The length of a control message with `data` bytes behind its header.
    pub open spec fn message_len(self, data: nat) -> nat {
        self.header_size() + data
    }

    /// A message with `count` descriptors has a length that a C `unsigned int` can hold.
    pub open spec fn fits(self, count: nat) -> bool {
        self.message_len(FD_SIZE as nat * count) <= u32::MAX
    }

    /// The bytes of one C `int`.
    pub open spec fn int_bytes(self, value: i32) -> Seq<u8> {
        self.order.encode(unsigned(value), 4)
    }

    /// The bytes of an array of C `int`s.
    pub open spec fn array_bytes(self, values: Seq<i32>) -> Seq<u8>
        decreases values.len(),
    {
        if values.len() == 0 {
            Seq::empty()
        } else {
            self.array_bytes(values.drop_last()) + self.int_bytes(values.last())
        }
    }

    /// The control message that carries `fds`.
    pub open spec fn message(self, fds: Seq<RawFd>) -> Seq<u8> {
        self.order.encode(self.message_len(FD_SIZE as nat * fds.len()), self.word_size())
            + self.int_bytes(self.level) + self.int_bytes(self.rights) + self.array_bytes(fds)
    }

    /// The C `int` that `control` holds at `at`.
    pub open spec fn int_at(self, control: Seq<u8>, at: int) -> i32 {
        signed(self.order.decode(control.subrange(at, at + 4)))
    }

    /// The length that the header in `control` gives for its message.
    pub open spec fn claimed_len(self, control: Seq<u8>) -> nat {
        self.order.decode(control.subrange(0, self.word_size() as int))
    }

    /// The header in `control` is that of a descriptor message.
    pub open spec fn carries_rights(self, control: Seq<u8>) -> bool {
        &&& self.int_at(control, self.word_size() as int) == self.level
        &&& self.int_at(control, (self.word_size() + 4) as int) == self.rights
    }

    /// The first `count` descriptors behind the header in `control`.
    pub open spec fn descriptors(self, control: Seq<u8>, count: nat) -> Seq<RawFd> {
        Seq::new(
            count,
            |i: int| self.int_at(control, self.header_size() + FD_SIZE as int * i),
        )
    }

    /// How many descriptors the header in `control` claims.
    pub open spec fn claimed_count(self, control: Seq<u8>) -> nat {
        (self.claimed_len(control) - self.message_len(0)) as nat / FD_SIZE as nat
    }

    /// The descriptors that a receiver with `slots` places for them takes from a reply, or why it
    /// takes none.
    pub open spec fn reception(
        self,
        received: int,
        control: Seq<u8>,
        control_len: nat,
        slots: nat,
    ) -> Result<Seq<RawFd>, TransferError> {
        if received < 0 {
            Err(TransferError::Os)
        } else if control_len < self.header_size() {
            Err(TransferError::NoControlMessage)
        } else if !self.carries_rights(control) {
            Err(TransferError::InvalidControlMessage)
        } else if slots <= self.claimed_count(control) {
            Ok(self.descriptors(control, slots))
        } else {
            Ok(self.descriptors(control, self.claimed_count(control)))
        }
    }

    /// The layout on a machine of this word size on which the number one has the bytes `one`, and
    /// which has these numbers for the socket level and for the type of descriptor messages.
    pub fn of_machine(one: [u8; 4], level: i32, rights: i32) -> (abi: ControlAbi)
        requires
            one@ == ByteOrder::Little.encode(1, 4) || one@ == ByteOrder::Big.encode(1, 4),
        ensures
            one@ == abi.order.encode(1, 4),
            abi.order is Little <==> one@ == seq![1u8, 0, 0, 0],
            abi.order is Big <==> one@ == seq![0u8, 0, 0, 1],
            abi.word_size() * 8 == usize::BITS,
            abi.word is Eight <==> usize::BITS == 64,
            abi.level == level,
            abi.rights == rights,
    {
        let word: WordSize = if usize::BITS == 32 {
            WordSize::Four
        } else {
            WordSize::Eight
        };
        ControlAbi { order: ByteOrder::of_one(one), word, level, rights }
    }

    /// The byte order, the socket level and the message type are those that this machine reports:
    /// they are what `u32::to_ne_bytes`, `libc::SOL_SOCKET` and `libc::SCM_RIGHTS` give.
    pub closed spec fn reported(self) -> bool {
        &&& exists|one: [u8; 4]| #[trigger]
            call_ensures(to_ne_bytes, (1u32,), one) && one@ == self.order.encode(1, 4)
        &&& call_ensures(sol_socket, (), self.level)
        &&& call_ensures(scm_rights, (), self.rights)
    }

    /// The layout on the machine that this runs on. Which byte order and which socket level that
    /// are is known only there.
    pub fn native() -> (abi: ControlAbi)
        ensures
            abi.reported(),
            abi.word_size() * 8 == usize::BITS,
            abi.word is Eight <==> usize::BITS == 64,
            abi.level == 1 || abi.level == 0xffff,
            abi.rights == 1,
    {
        ControlAbi::of_machine(to_ne_bytes(1), sol_socket(), scm_rights())
    }

    /// The size of a machine word.
    fn word(&self) -> (size: usize)
        ensures
            size == self.word_size(),
    {
        match self.word {
            WordSize::Four => 4,
            WordSize::Eight => 8,
        }
    }

    /// The length of a control message with `data` bytes behind its header, as `CMSG_LEN` gives
    /// it.
    pub fn cmsg_len(&self, data: u32) -> (len: u32)
        requires
            self.message_len(data as nat) <= u32::MAX,
        ensures
            len == self.message_len(data as nat),
            len == (if self.word is Eight {
                16int
            } else {
                12int
            }) + data,
    {
        match self.word {
            WordSize::Four => 12 + data,
            WordSize::Eight => 16 + data,
        }
    }

    /// Whether one message can carry `count` descriptors.
    pub fn can_carry(&self, count: usize) -> (can: bool)
        ensures
            can == self.fits(count as nat),
            can <==> (if self.word is Eight {
                16int
            } else {
                12int
            }) + 4 * count <= 0xffff_ffff,
    {
        count as u64 <= ((u32::MAX - self.cmsg_len(0)) / FD_SIZE) as u64
    }

    /// The bytes of one C `int`.
    fn encode_int(&self, value: i32) -> (out: Vec<u8>)
        ensures
            out@ == self.int_bytes(value),
    {
        let bits: u64 = if value < 0 {
            (value as i64 + 0x1_0000_0000) as u64
        } else {
            value as u64
        };
        encode_uint(self.order, bits, 4)
    }

    /// The C `int` that `control` holds at `at`.
    fn decode_int(&self, control: &[u8], at: usize) -> (value: i32)
        requires
            at + 4 <= control@.len(),
        ensures
            value == self.int_at(control@, at as int),
    {
        proof {
            crate::bytes::lemma_span_of_words();
        }
        let bits: u64 = decode_uint(self.order, control, at, 4);
        if bits >= 0x8000_0000 {
            (bits as i64 - 0x1_0000_0000) as i32
        } else {
            bits as i32
        }
    }

    proof fn lemma_array_bytes_len(self, values: Seq<i32>)
        ensures
            self.array_bytes(values).len() == 4 * values.len(),
        decreases values.len(),
    {
        if 0 < values.len() {
            self.lemma_array_bytes_len(values.drop_last());
            crate::bytes::lemma_digits_len(unsigned(values.last()), 4);
        }
    }

    proof fn lemma_message_len(self, fds: Seq<RawFd>)
        ensures
            self.message(fds).len() == self.message_len(FD_SIZE as nat * fds.len()),
    {
        self.lemma_array_bytes_len(fds);
        crate::bytes::lemma_digits_len(unsigned(self.level), 4);
        crate::bytes::lemma_digits_len(unsigned(self.rights), 4);
        crate::bytes::lemma_digits_len(self.message_len(FD_SIZE as nat * fds.len()), self.word_size());
    }
}

/// The message with which to send `fds`: a single zero byte of payload, and the control message.
/// Its control data is never too short to hold a header, so a first header is always found in it.
#[verifier::rlimit(50)]
pub fn send_fds(abi: &ControlAbi, fds: &[RawFd]) -> (message: Message)
    requires
        abi.fits(fds@.len()),
    ensures
        message.payload@ == seq![0u8],
        message.control@ == abi.message(fds@),
        message.control@.len() == abi.message_len(FD_SIZE as nat * fds@.len()),
        message.control@.len() >= abi.header_size(),
        ({
            let c = message.control@;
            let w: int = if abi.word is Eight {
                8
            } else {
                4
            };
            let h = w + 8;
            let int_field = (|p: int|
                if abi.order is Little {
                    c[p] + 0x100 * c[p + 1] + 0x1_0000 * c[p + 2] + 0x100_0000 * c[p + 3]
                } else {
                    c[p + 3] + 0x100 * c[p + 2] + 0x1_0000 * c[p + 1] + 0x100_0000 * c[p]
                });
            let length = if abi.word is Four {
                int_field(0)
            } else if abi.order is Little {
                int_field(0) + 0x1_0000_0000 * int_field(4)
            } else {
                int_field(4) + 0x1_0000_0000 * int_field(0)
            };
            &&& length == h + 4 * fds@.len()
            &&& c.len() == h + 4 * fds@.len()
            &&& (int_field(w) - abi.level) % 0x1_0000_0000 == 0
            &&& (int_field(w + 4) - abi.rights) % 0x1_0000_0000 == 0
            &&& forall|i: int|
                0 <= i < fds@.len() ==> (int_field(h + 4 * i) - #[trigger] fds@[i]) % 0x1_0000_0000
                    == 0
        }),
{
    proof {
        abi.lemma_message_len(fds@);
        lemma_message_fields(*abi, fds@);
    }
    let len: u32 = abi.cmsg_len(fds.len() as u32 * FD_SIZE);
    let mut control: Vec<u8> = encode_uint(abi.order, len as u64, abi.word());
    let mut level: Vec<u8> = abi.encode_int(abi.level);
    control.append(&mut level);
    let mut rights: Vec<u8> = abi.encode_int(abi.rights);
    control.append(&mut rights);
    let ghost header = control@;
    let mut done: usize = 0;
    let count: usize = fds.len();
    assert(fds@.take(0) =~= Seq::empty());
    while done < count
        invariant
            done <= count == fds@.len(),
            control@ == header + abi.array_bytes(fds@.take(done as int)),
        decreases count - done,
    {
        let mut fd: Vec<u8> = abi.encode_int(fds[done]);
        control.append(&mut fd);
        assert(fds@.take(done + 1).drop_last() =~= fds@.take(done as int));
        done = done + 1;
        assert(control@ =~= header + abi.array_bytes(fds@.take(done as int)));
    }
    assert(fds@.take(count as int) =~= fds@);
    Message { payload: vec![0u8], control }
}

/// What a result of `sendmsg` means: a negative number is a failure, anything else is success.
pub fn send_outcome(sent: isize) -> (outcome: Result<(), TransferError>)
    ensures
        outcome == (if sent < 0 {
            Err::<(), TransferError>(TransferError::Os)
        } else {
            Ok::<(), TransferError>(())
        }),
{
    if sent < 0 {
        Err(TransferError::Os)
    } else {
        Ok(())
    }
}

/// The buffers with which to receive up to `slots` descriptors: a single byte for the payload, and
/// room for exactly the control message with that many, all zero.
pub fn receive_buffers(abi: &ControlAbi, slots: usize) -> (message: Message)
    requires
        abi.fits(slots as nat),
    ensures
        message.payload@ == seq![0u8],
        message.control@ == Seq::new(
            abi.message_len(FD_SIZE as nat * slots as nat),
            |i: int| 0u8,
        ),
        message.control@.len() == (if abi.word is Eight {
            16int
        } else {
            12int
        }) + 4 * slots,
        forall|i: int| 0 <= i < message.control@.len() ==> #[trigger] message.control@[i] == 0,
{
    let len: u32 = abi.cmsg_len(slots as u32 * FD_SIZE);
    let control: Vec<u8> = vec![0u8; len as usize];
    assert(control@ =~= Seq::new(len as nat, |i: int| 0u8));
    Message { payload: vec![0u8], control }
}

/// Reads the descriptors of a reply into `fds`, as many as came and as there is room for, and
/// returns how many that are. The rest of `fds` is left as it was, and so is all of it when there
/// is an error.
#[verifier::rlimit(50)]
pub fn recv_fds(abi: &ControlAbi, reply: &Reply, fds: &mut [RawFd]) -> (outcome: Result<
    usize,
    TransferError,
>)
    requires
        reply.valid(*abi, old(fds)@.len()),
    ensures
        match abi.reception(
            reply.received as int,
            reply.control@,
            reply.control_len as nat,
            old(fds)@.len(),
        ) {
            Ok(taken) => {
                &&& outcome == Ok::<usize, TransferError>(taken.len() as usize)
                &&& taken.len() <= old(fds)@.len()
                &&& final(fds)@ == taken + old(fds)@.skip(taken.len() as int)
            },
            Err(error) => outcome == Err::<usize, TransferError>(error) && final(fds)@ == old(
                fds,
            )@,
        },
        ({
            let c = reply.control@;
            let w: int = if abi.word is Eight {
                8
            } else {
                4
            };
            let h = w + 8;
            let int_field = (|p: int|
                if abi.order is Little {
                    c[p] + 0x100 * c[p + 1] + 0x1_0000 * c[p + 2] + 0x100_0000 * c[p + 3]
                } else {
                    c[p + 3] + 0x100 * c[p + 2] + 0x1_0000 * c[p + 1] + 0x100_0000 * c[p]
                });
            let length = if abi.word is Four {
                int_field(0)
            } else if abi.order is Little {
                int_field(0) + 0x1_0000_0000 * int_field(4)
            } else {
                int_field(4) + 0x1_0000_0000 * int_field(0)
            };
            let rights = (int_field(w) - abi.level) % 0x1_0000_0000 == 0 && (int_field(w + 4)
                - abi.rights) % 0x1_0000_0000 == 0;
            &&& reply.received < 0 ==> outcome == Err::<usize, TransferError>(TransferError::Os)
            &&& reply.received >= 0 && reply.control_len < h ==> outcome == Err::<
                usize,
                TransferError,
            >(TransferError::NoControlMessage)
            &&& reply.received >= 0 && reply.control_len >= h && !rights ==> outcome == Err::<
                usize,
                TransferError,
            >(TransferError::InvalidControlMessage)
            &&& reply.received >= 0 && reply.control_len >= h && rights ==> outcome is Ok
            &&& outcome is Err ==> final(fds)@ == old(fds)@
            &&& outcome is Ok ==> {
                &&& outcome->Ok_0 <= old(fds)@.len()
                &&& h + 4 * outcome->Ok_0 <= length
                &&& outcome->Ok_0 == old(fds)@.len() || length < h + 4 * (outcome->Ok_0 + 1)
                &&& final(fds)@.len() == old(fds)@.len()
                &&& forall|i: int|
                    0 <= i < outcome->Ok_0 ==> (int_field(h + 4 * i) - #[trigger] final(fds)@[i])
                        % 0x1_0000_0000 == 0
                &&& forall|i: int|
                    outcome->Ok_0 <= i < old(fds)@.len() ==> #[trigger] final(fds)@[i] == old(
                        fds,
                    )@[i]
            }
        }),
{
    proof {
        law_valid_reply(*abi, *reply, fds@.len());
        law_taken_descriptors(
            *abi,
            reply.received as int,
            reply.control@,
            reply.control_len as nat,
            fds@.len(),
        );
    }
    let control: &[u8] = reply.control.as_slice();
    let len: usize = control.len();
    let word: usize = abi.word();
    if reply.received < 0 {
        return Err(TransferError::Os);
    }
    if reply.control_len < word + 8 {
        return Err(TransferError::NoControlMessage);
    }
    if abi.decode_int(control, word) != abi.level || abi.decode_int(control, word + 4)
        != abi.rights {
        return Err(TransferError::InvalidControlMessage);
    }
    let claimed: u64 = (decode_uint(abi.order, control, 0, word) - abi.cmsg_len(0) as u64)
        / FD_SIZE as u64;
    let slots: usize = fds.len();
    let count: usize = if slots as u64 <= claimed {
        slots
    } else {
        claimed as usize
    };
    let ghost taken = abi.descriptors(control@, count as nat);
    let ghost before = fds@;
    let mut done: usize = 0;
    let mut at: usize = word + 8;
    while done < count
        invariant
            done <= count <= before.len(),
            len == control@.len(),
            len >= abi.header_size() + 4 * before.len(),
            at == abi.header_size() + 4 * done,
            taken == abi.descriptors(control@, count as nat),
            fds@ == taken.take(done as int) + before.skip(done as int),
            before == old(fds)@,
        decreases count - done,
    {
        let fd: RawFd = abi.decode_int(control, at);
        fds[done] = fd;
        done = done + 1;
        at = at + FD_SIZE as usize;
        assert(fds@ =~= taken.take(done as int) + before.skip(done as int));
    }
    assert(taken.take(count as int) =~= taken);
    Ok(count)
}

proof fn lemma_int_read_back(abi: ControlAbi, control: Seq<u8>, at: int, value: i32)
    requires
        0 <= at,
        at + 4 <= control.len(),
        control.subrange(at, at + 4) == abi.int_bytes(value),
    ensures
        abi.int_at(control, at) == value,
{
    crate::bytes::lemma_span_of_words();
    crate::bytes::law_decode_encode(abi.order, unsigned(value), 4);
}

proof fn lemma_array_element(abi: ControlAbi, values: Seq<i32>, i: int)
    requires
        0 <= i < values.len(),
    ensures
        abi.array_bytes(values).len() == 4 * values.len(),
        abi.array_bytes(values).subrange(4 * i, 4 * i + 4) == abi.int_bytes(values[i]),
    decreases values.len(),
{
    let init = values.drop_last();
    abi.lemma_array_bytes_len(values);
    abi.lemma_array_bytes_len(init);
    if i < init.len() {
        lemma_array_element(abi, init, i);
        assert(abi.array_bytes(values).subrange(4 * i, 4 * i + 4) =~= abi.array_bytes(
            init,
        ).subrange(4 * i, 4 * i + 4));
    } else {
        assert(abi.array_bytes(values).subrange(4 * i, 4 * i + 4) =~= abi.int_bytes(
            values.last(),
        ));
    }
}

/// The descriptors follow the header directly: it is a whole number of words long, so that aligning
/// it to the next word adds nothing.
pub proof fn law_no_gap_behind_header(abi: ControlAbi)
    ensures
        abi.align(abi.header_size()) == abi.header_size(),
        abi.message_len(0) == abi.align(abi.header_size()),
{
    match abi.word {
        WordSize::Four => {
            assert((12 + 4 - 1) / 4 * 4 == 12);
        },
        WordSize::Eight => {
            assert((16 + 8 - 1) / 8 * 8 == 16);
        },
    }
}

proof fn lemma_four_bytes(abi: ControlAbi, c: Seq<u8>, p: int)
    requires
        0 <= p,
        p + 4 <= c.len(),
    ensures
        abi.order is Little ==> abi.order.decode(c.subrange(p, p + 4)) == c[p] + 0x100 * c[p + 1]
            + 0x1_0000 * c[p + 2] + 0x100_0000 * c[p + 3],
        abi.order is Big ==> abi.order.decode(c.subrange(p, p + 4)) == c[p + 3] + 0x100 * c[p + 2]
            + 0x1_0000 * c[p + 1] + 0x100_0000 * c[p],
        abi.order.decode(c.subrange(p, p + 4)) == unsigned(abi.int_at(c, p)),
{
    crate::bytes::law_value_of_four_bytes(abi.order, c.subrange(p, p + 4));
}

proof fn lemma_same_bits(bits: int, value: i32)
    requires
        0 <= bits < 0x1_0000_0000,
    ensures
        (bits - value) % 0x1_0000_0000 == 0 <==> bits == unsigned(value),
{
}

/// The four bytes at a place make the given number, modulo 2^32, if and only if that is the C `int`
/// there.
proof fn lemma_int_field(abi: ControlAbi, c: Seq<u8>, p: int, value: i32)
    requires
        0 <= p,
        p + 4 <= c.len(),
    ensures
        ({
            let bits = if abi.order is Little {
                c[p] + 0x100 * c[p + 1] + 0x1_0000 * c[p + 2] + 0x100_0000 * c[p + 3]
            } else {
                c[p + 3] + 0x100 * c[p + 2] + 0x1_0000 * c[p + 1] + 0x100_0000 * c[p]
            };
            (bits - value) % 0x1_0000_0000 == 0 <==> abi.int_at(c, p) == value
        }),
{
    lemma_four_bytes(abi, c, p);
    lemma_same_bits(unsigned(abi.int_at(c, p)) as int, value);
}

proof fn lemma_length_field(abi: ControlAbi, c: Seq<u8>)
    requires
        abi.word_size() <= c.len(),
    ensures
        ({
            let w: int = if abi.word is Eight {
                8
            } else {
                4
            };
            let h = w + 8;
            let int_field = (|p: int|
                if abi.order is Little {
                    c[p] + 0x100 * c[p + 1] + 0x1_0000 * c[p + 2] + 0x100_0000 * c[p + 3]
                } else {
                    c[p + 3] + 0x100 * c[p + 2] + 0x1_0000 * c[p + 1] + 0x100_0000 * c[p]
                });
            let length = if abi.word is Four {
                int_field(0)
            } else if abi.order is Little {
                int_field(0) + 0x1_0000_0000 * int_field(4)
            } else {
                int_field(4) + 0x1_0000_0000 * int_field(0)
            };
            length == abi.claimed_len(c)
        }),
{
    if abi.word is Eight {
        crate::bytes::law_value_of_eight_bytes(abi.order, c.subrange(0, 8));
    } else {
        crate::bytes::law_value_of_four_bytes(abi.order, c.subrange(0, 4));
    }
}

/// The header of a descriptor message, in arithmetic on its bytes: the length field holds the
/// length of the whole message, which is a word and two C `int`s and four bytes for each
/// descriptor, and behind it stand the socket level and the message type.
#[verifier::rlimit(50)]
pub proof fn law_header_bytes(abi: ControlAbi, fds: Seq<RawFd>)
    requires
        (if abi.word is Eight {
            16int
        } else {
            12int
        }) + 4 * fds.len() <= u32::MAX,
    ensures
        ({
            let c = abi.message(fds);
            let w: int = if abi.word is Eight {
                8
            } else {
                4
            };
            let h = w + 8;
            let int_field = (|p: int|
                if abi.order is Little {
                    c[p] + 0x100 * c[p + 1] + 0x1_0000 * c[p + 2] + 0x100_0000 * c[p + 3]
                } else {
                    c[p + 3] + 0x100 * c[p + 2] + 0x1_0000 * c[p + 1] + 0x100_0000 * c[p]
                });
            let length = if abi.word is Four {
                int_field(0)
            } else if abi.order is Little {
                int_field(0) + 0x1_0000_0000 * int_field(4)
            } else {
                int_field(4) + 0x1_0000_0000 * int_field(0)
            };
            &&& length == h + 4 * fds.len()
            &&& c.len() == h + 4 * fds.len()
            &&& (int_field(w) - abi.level) % 0x1_0000_0000 == 0
            &&& (int_field(w + 4) - abi.rights) % 0x1_0000_0000 == 0
        }),
{
    let c = abi.message(fds);
    let word = abi.word_size() as int;
    let len = abi.message_len(FD_SIZE as nat * fds.len());
    abi.lemma_message_len(fds);
    crate::bytes::lemma_span_of_words();
    crate::bytes::law_decode_encode(abi.order, len, abi.word_size());
    crate::bytes::lemma_digits_len(unsigned(abi.level), 4);
    crate::bytes::lemma_digits_len(unsigned(abi.rights), 4);
    assert(c.subrange(0, word) =~= abi.order.encode(len, abi.word_size()));
    lemma_length_field(abi, c);
    assert(c.subrange(word, word + 4) =~= abi.int_bytes(abi.level));
    lemma_int_read_back(abi, c, word, abi.level);
    lemma_int_field(abi, c, word, abi.level);
    assert(c.subrange(word + 4, word + 8) =~= abi.int_bytes(abi.rights));
    lemma_int_read_back(abi, c, word + 4, abi.rights);
    lemma_int_field(abi, c, word + 4, abi.rights);
}

proof fn lemma_digits_of_sum(v: int, b0: u8, b1: u8, b2: u8, b3: u8)
    requires
        v == b0 + 0x100 * b1 + 0x1_0000 * b2 + 0x100_0000 * b3,
    ensures
        b0 == v % 256,
        b1 == v / 0x100 % 256,
        b2 == v / 0x1_0000 % 256,
        b3 == v / 0x100_0000 % 256,
{
    assert(v / 0x100 == b1 + 0x100 * b2 + 0x1_0000 * b3);
    assert(v / 0x1_0000 == b2 + 0x100 * b3);
    assert(v / 0x100_0000 == b3);
}

proof fn lemma_message_element(abi: ControlAbi, fds: Seq<RawFd>, i: int)
    requires
        0 <= i < fds.len(),
    ensures
        abi.message(fds).len() == abi.header_size() + 4 * fds.len(),
        abi.int_at(abi.message(fds), abi.header_size() + 4 * i) == fds[i],
{
    let c = abi.message(fds);
    let p = abi.header_size() + 4 * i;
    abi.lemma_message_len(fds);
    abi.lemma_array_bytes_len(fds);
    lemma_array_element(abi, fds, i);
    crate::bytes::lemma_digits_len(unsigned(abi.level), 4);
    crate::bytes::lemma_digits_len(unsigned(abi.rights), 4);
    crate::bytes::lemma_digits_len(
        abi.message_len(FD_SIZE as nat * fds.len()),
        abi.word_size(),
    );
    assert(c.subrange(p, p + 4) =~= abi.array_bytes(fds).subrange(4 * i, 4 * i + 4));
    lemma_int_read_back(abi, c, p, fds[i]);
}

/// The descriptors in a message, in arithmetic on its bytes: the four bytes for a descriptor are
/// the base-256 digits of its own number, or of that number plus 2^32 if it is negative.
#[verifier::rlimit(50)]
pub proof fn law_descriptor_bytes(abi: ControlAbi, fds: Seq<RawFd>, i: int)
    requires
        0 <= i < fds.len(),
    ensures
        ({
            let c = abi.message(fds);
            let p = (if abi.word is Eight {
                16int
            } else {
                12int
            }) + 4 * i;
            let bits: int = (if fds[i] < 0 {
                fds[i] + 0x1_0000_0000
            } else {
                fds[i] as int
            });
            &&& c.len() >= p + 4
            &&& abi.order is Little ==> {
                &&& c[p] == bits % 256
                &&& c[p + 1] == bits / 0x100 % 256
                &&& c[p + 2] == bits / 0x1_0000 % 256
                &&& c[p + 3] == bits / 0x100_0000 % 256
            }
            &&& abi.order is Big ==> {
                &&& c[p + 3] == bits % 256
                &&& c[p + 2] == bits / 0x100 % 256
                &&& c[p + 1] == bits / 0x1_0000 % 256
                &&& c[p] == bits / 0x100_0000 % 256
            }
        }),
{
    let c = abi.message(fds);
    let p = abi.header_size() + 4 * i;
    lemma_message_element(abi, fds, i);
    lemma_four_bytes(abi, c, p);
    let bits = unsigned(fds[i]) as int;
    match abi.order {
        ByteOrder::Little => lemma_digits_of_sum(bits, c[p], c[p + 1], c[p + 2], c[p + 3]),
        ByteOrder::Big => lemma_digits_of_sum(bits, c[p + 3], c[p + 2], c[p + 1], c[p]),
    }
}

proof fn lemma_message_fields(abi: ControlAbi, fds: Seq<RawFd>)
    requires
        abi.fits(fds.len()),
    ensures
        ({
            let c = abi.message(fds);
            let w: int = if abi.word is Eight {
                8
            } else {
                4
            };
            let h = w + 8;
            let int_field = (|p: int|
                if abi.order is Little {
                    c[p] + 0x100 * c[p + 1] + 0x1_0000 * c[p + 2] + 0x100_0000 * c[p + 3]
                } else {
                    c[p + 3] + 0x100 * c[p + 2] + 0x1_0000 * c[p + 1] + 0x100_0000 * c[p]
                });
            let length = if abi.word is Four {
                int_field(0)
            } else if abi.order is Little {
                int_field(0) + 0x1_0000_0000 * int_field(4)
            } else {
                int_field(4) + 0x1_0000_0000 * int_field(0)
            };
            &&& length == h + 4 * fds.len()
            &&& c.len() == h + 4 * fds.len()
            &&& (int_field(w) - abi.level) % 0x1_0000_0000 == 0
            &&& (int_field(w + 4) - abi.rights) % 0x1_0000_0000 == 0
            &&& forall|i: int|
                0 <= i < fds.len() ==> (int_field(h + 4 * i) - #[trigger] fds[i]) % 0x1_0000_0000
                    == 0
        }),
{
    law_header_bytes(abi, fds);
    let c = abi.message(fds);
    let h = abi.header_size() as int;
    let int_field = (|p: int|
        if abi.order is Little {
            c[p] + 0x100 * c[p + 1] + 0x1_0000 * c[p + 2] + 0x100_0000 * c[p + 3]
        } else {
            c[p + 3] + 0x100 * c[p + 2] + 0x1_0000 * c[p + 1] + 0x100_0000 * c[p]
        });
    assert forall|i: int| 0 <= i < fds.len() implies (int_field(h + 4 * i) - #[trigger] fds[i])
        % 0x1_0000_0000 == 0 by {
        lemma_message_element(abi, fds, i);
        lemma_int_field(abi, c, h + 4 * i, fds[i]);
    }
}

/// A failed call brings no descriptors: a negative result is an error of the operating system,
/// whatever lies in the buffer.
pub proof fn law_failed_call(
    abi: ControlAbi,
    received: int,
    control: Seq<u8>,
    control_len: nat,
    slots: nat,
)
    requires
        received < 0,
    ensures
        abi.reception(received, control, control_len, slots) == Err::<Seq<RawFd>, TransferError>(
            TransferError::Os,
        ),
{
}

/// Without room for a header in the control data that came there is no control message, whatever
/// lies in the buffer.
pub proof fn law_no_control_message(
    abi: ControlAbi,
    received: int,
    control: Seq<u8>,
    control_len: nat,
    slots: nat,
)
    requires
        received >= 0,
        control_len < (if abi.word is Eight {
            16int
        } else {
            12int
        }),
    ensures
        abi.reception(received, control, control_len, slots) == Err::<Seq<RawFd>, TransferError>(
            TransferError::NoControlMessage,
        ),
{
}

/// A control message with another level or another type in its header brings no descriptors,
/// whatever follows.
pub proof fn law_other_control_message(
    abi: ControlAbi,
    received: int,
    control: Seq<u8>,
    control_len: nat,
    slots: nat,
)
    requires
        received >= 0,
        control_len >= (if abi.word is Eight {
            16int
        } else {
            12int
        }),
        ({
            let c = control;
            let w: int = if abi.word is Eight {
                8
            } else {
                4
            };
            let h = w + 8;
            let int_field = (|p: int|
                if abi.order is Little {
                    c[p] + 0x100 * c[p + 1] + 0x1_0000 * c[p + 2] + 0x100_0000 * c[p + 3]
                } else {
                    c[p + 3] + 0x100 * c[p + 2] + 0x1_0000 * c[p + 1] + 0x100_0000 * c[p]
                });
            &&& c.len() >= h
            &&& (int_field(w) - abi.level) % 0x1_0000_0000 != 0 || (int_field(w + 4) - abi.rights) % 0x1_0000_0000 != 0
        }),
    ensures
        abi.reception(received, control, control_len, slots) == Err::<Seq<RawFd>, TransferError>(
            TransferError::InvalidControlMessage,
        ),
{
    lemma_int_field(abi, control, abi.word_size() as int, abi.level);
    lemma_int_field(abi, control, (abi.word_size() + 4) as int, abi.rights);
}

/// Aligning a length gives the next multiple of the word size, or the length itself if it is one.
pub proof fn law_aligned_length(abi: ControlAbi, len: nat)
    ensures
        ({
            let w: int = if abi.word is Eight {
                8
            } else {
                4
            };
            &&& len <= abi.align(len) < len + w
            &&& abi.align(len) as int % w == 0
        }),
{
    match abi.word {
        WordSize::Four => {
            assert(abi.align(len) == (len + 3) / 4 * 4);
        },
        WordSize::Eight => {
            assert(abi.align(len) == (len + 7) / 8 * 8);
        },
    }
}

/// A layout that the machine reports has the byte order in which the machine stores the number
/// one, and the machine's own numbers for the socket level and the message type.
proof fn law_reported_by_the_machine(abi: ControlAbi)
    ensures
        abi.reported() <==> {
            &&& exists|one: [u8; 4]| #[trigger]
                call_ensures(to_ne_bytes, (1u32,), one) && one@ == abi.order.encode(1, 4)
            &&& call_ensures(sol_socket, (), abi.level)
            &&& call_ensures(scm_rights, (), abi.rights)
        },
{
}

/// A message can carry as many descriptors as leave its length within 32 bits.
pub proof fn law_most_descriptors(abi: ControlAbi, count: nat)
    ensures
        abi.fits(count) <==> (if abi.word is Eight {
            16int
        } else {
            12int
        }) + 4 * count <= 0xffff_ffff,
{
}

/// A reply can be read if its control buffer has room for a header and the descriptors asked for,
/// and if, where it is a reply with descriptors, the length field is not below the header's size.
pub proof fn law_valid_reply(abi: ControlAbi, reply: Reply, slots: nat)
    ensures
        ({
            let c = reply.control@;
            let w: int = if abi.word is Eight {
                8
            } else {
                4
            };
            let h = w + 8;
            let int_field = (|p: int|
                if abi.order is Little {
                    c[p] + 0x100 * c[p + 1] + 0x1_0000 * c[p + 2] + 0x100_0000 * c[p + 3]
                } else {
                    c[p + 3] + 0x100 * c[p + 2] + 0x1_0000 * c[p + 1] + 0x100_0000 * c[p]
                });
            let length = if abi.word is Four {
                int_field(0)
            } else if abi.order is Little {
                int_field(0) + 0x1_0000_0000 * int_field(4)
            } else {
                int_field(4) + 0x1_0000_0000 * int_field(0)
            };
            reply.valid(abi, slots) <==> {
                &&& c.len() >= h + 4 * slots
                &&& reply.received >= 0 && reply.control_len >= h && (int_field(w) - abi.level)
                    % 0x1_0000_0000 == 0 && (int_field(w + 4) - abi.rights) % 0x1_0000_0000 == 0
                    ==> length >= h
            }
        }),
{
    let control = reply.control@;
    if control.len() >= abi.header_size() {
        lemma_length_field(abi, control);
        lemma_int_field(abi, control, abi.word_size() as int, abi.level);
        lemma_int_field(abi, control, (abi.word_size() + 4) as int, abi.rights);
    }
}

/// Descriptors are taken only where the call succeeded, a header came, and its level and type are
/// those of descriptor messages. They are as many as the length field leaves room for behind the
/// header, or as many as there are places for them, whichever is less; and each is the number that
/// its four bytes make, modulo 2^32, as are level and type.
#[verifier::rlimit(50)]
pub proof fn law_taken_descriptors(
    abi: ControlAbi,
    received: int,
    control: Seq<u8>,
    control_len: nat,
    slots: nat,
)
    requires
        ({
            let c = control;
            let w: int = if abi.word is Eight {
                8
            } else {
                4
            };
            let h = w + 8;
            let int_field = (|p: int|
                if abi.order is Little {
                    c[p] + 0x100 * c[p + 1] + 0x1_0000 * c[p + 2] + 0x100_0000 * c[p + 3]
                } else {
                    c[p + 3] + 0x100 * c[p + 2] + 0x1_0000 * c[p + 1] + 0x100_0000 * c[p]
                });
            let length = if abi.word is Four {
                int_field(0)
            } else if abi.order is Little {
                int_field(0) + 0x1_0000_0000 * int_field(4)
            } else {
                int_field(4) + 0x1_0000_0000 * int_field(0)
            };
            &&& c.len() >= h + 4 * slots
            &&& received >= 0 && control_len >= h && (int_field(w) - abi.level) % 0x1_0000_0000 == 0 && (int_field(w + 4) - abi.rights) % 0x1_0000_0000 == 0 ==> length >= h
        }),
    ensures
        ({
            let c = control;
            let w: int = if abi.word is Eight {
                8
            } else {
                4
            };
            let h = w + 8;
            let int_field = (|p: int|
                if abi.order is Little {
                    c[p] + 0x100 * c[p + 1] + 0x1_0000 * c[p + 2] + 0x100_0000 * c[p + 3]
                } else {
                    c[p + 3] + 0x100 * c[p + 2] + 0x1_0000 * c[p + 1] + 0x100_0000 * c[p]
                });
            let length = if abi.word is Four {
                int_field(0)
            } else if abi.order is Little {
                int_field(0) + 0x1_0000_0000 * int_field(4)
            } else {
                int_field(4) + 0x1_0000_0000 * int_field(0)
            };
            let result = abi.reception(received, control, control_len, slots);
            &&& result is Ok <==> received >= 0 && control_len >= h && (int_field(w) - abi.level) % 0x1_0000_0000 == 0 && (int_field(w + 4) - abi.rights) % 0x1_0000_0000 == 0
            &&& result is Ok ==> {
                &&& result->Ok_0.len() <= slots
                &&& h + 4 * result->Ok_0.len() <= length
                &&& result->Ok_0.len() == slots || length < h + 4 * (result->Ok_0.len() + 1)
                &&& forall|i: int|
                    0 <= i < result->Ok_0.len() ==> (int_field(h + 4 * i) - #[trigger] result->Ok_0[i]) % 0x1_0000_0000 == 0
            }
        }),
{
    let word = abi.word_size() as int;
    let h = abi.header_size() as int;
    lemma_length_field(abi, control);
    lemma_int_field(abi, control, word, abi.level);
    lemma_int_field(abi, control, word + 4, abi.rights);
    let result = abi.reception(received, control, control_len, slots);
    if result is Ok {
        let taken = result->Ok_0;
        let int_field = (|p: int|
            if abi.order is Little {
                control[p] + 0x100 * control[p + 1] + 0x1_0000 * control[p + 2] + 0x100_0000
                    * control[p + 3]
            } else {
                control[p + 3] + 0x100 * control[p + 2] + 0x1_0000 * control[p + 1] + 0x100_0000
                    * control[p]
            });
        assert forall|i: int| 0 <= i < taken.len() implies (int_field(h + 4 * i)
            - #[trigger] taken[i]) % 0x1_0000_0000 == 0 by {
            lemma_int_field(abi, control, h + 4 * i, taken[i]);
        }
    }
}

/// A receiver takes from a descriptor message the very descriptors that the message was made of,
/// in their order: all of them, or as many as it has places for. What lies in the buffer behind
/// the message makes no difference.
pub proof fn law_received_as_sent(
    abi: ControlAbi,
    fds: Seq<RawFd>,
    reply: Reply,
    slots: nat,
)
    requires
        abi.fits(fds.len()),
        abi.message(fds).is_prefix_of(reply.control@),
        reply.control@.len() >= abi.message_len(FD_SIZE as nat * slots),
        reply.control_len >= abi.message(fds).len(),
        reply.received >= 0,
    ensures
        reply.valid(abi, slots),
        abi.reception(
            reply.received as int,
            reply.control@,
            reply.control_len as nat,
            slots,
        ) == Ok::<Seq<RawFd>, TransferError>(
            if slots <= fds.len() {
                fds.take(slots as int)
            } else {
                fds
            },
        ),
{
    let control = reply.control@;
    let message = abi.message(fds);
    let word = abi.word_size() as int;
    let header = abi.header_size() as int;
    let len = abi.message_len(FD_SIZE as nat * fds.len());
    abi.lemma_message_len(fds);
    abi.lemma_array_bytes_len(fds);
    crate::bytes::lemma_span_of_words();
    crate::bytes::law_decode_encode(abi.order, len, abi.word_size());
    crate::bytes::lemma_digits_len(unsigned(abi.level), 4);
    crate::bytes::lemma_digits_len(unsigned(abi.rights), 4);
    assert(forall|i: int| 0 <= i < message.len() ==> message[i] == control[i]);
    assert(control.subrange(0, word) =~= abi.order.encode(len, abi.word_size()));
    assert(control.subrange(word, word + 4) =~= abi.int_bytes(abi.level));
    lemma_int_read_back(abi, control, word, abi.level);
    assert(control.subrange(word + 4, word + 8) =~= abi.int_bytes(abi.rights));
    lemma_int_read_back(abi, control, word + 4, abi.rights);
    assert forall|i: int| 0 <= i < fds.len() implies #[trigger] abi.int_at(control, header + 4 * i)
        == fds[i] by {
        lemma_array_element(abi, fds, i);
        assert(control.subrange(header + 4 * i, header + 4 * i + 4) =~= abi.array_bytes(
            fds,
        ).subrange(4 * i, 4 * i + 4));
        lemma_int_read_back(abi, control, header + 4 * i, fds[i]);
    }
    assert(abi.claimed_count(control) == fds.len());
    let count = if slots <= fds.len() {
        slots
    } else {
        fds.len()
    };
    assert(abi.descriptors(control, count) =~= fds.take(count as int));
    assert(fds.take(fds.len() as int) =~= fds);
}

/// The buffer that a receiver makes for a number of descriptors holds every message with at most
/// that many, and a message with that many fills it.
pub proof fn law_buffer_matches_message(abi: ControlAbi, fds: Seq<RawFd>, slots: nat)
    requires
        fds.len() <= slots,
    ensures
        abi.message(fds).len() <= abi.message_len(FD_SIZE as nat * slots),
        fds.len() == slots <==> abi.message(fds).len() == abi.message_len(FD_SIZE as nat * slots),
{
    abi.lemma_message_len(fds);
}

} // verus!
