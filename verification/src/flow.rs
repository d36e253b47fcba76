//! Whole operations on the radio, made of transactions on the channels.

use crate::cat;
use crate::dat::{self, Progress, Receiver};
use crate::decimal::{all_digits, digits_value, lemma_digits_grow, number_of, unsigned_part};
use crate::error::Error;
use crate::fmp::{self, MemInfo};
use crate::link::{remainder, wire, Frame, Link, Protocol};
use crate::slip;
use vstd::prelude::*;
use vstd::utf8::encode_utf8;

verus! {

/// The index that a text writes: its number, if that fits.
pub open spec fn index_of(text: Seq<u8>) -> Option<usize> {
    match number_of(text) {
        Some(n) => if n <= usize::MAX {
            Some(n as usize)
        } else {
            None
        },
        None => None,
    }
}

/// Reads a memory index written in decimal.
pub fn parse_index(text: &str) -> (r: Option<usize>)
    ensures
        r == index_of(encode_utf8(text@)),
{
    let bytes: &[u8] = text.as_bytes();
    let start: usize = if bytes.len() > 0 && bytes[0] == 0x2b {
        1
    } else {
        0
    };
    if start == bytes.len() {
        return None;
    }
    let ghost d = unsigned_part(bytes@);
    let mut value: usize = 0;
    let mut i: usize = start;
    while i < bytes.len()
        invariant
            start <= i <= bytes.len(),
            bytes@ == encode_utf8(text@),
            d == unsigned_part(bytes@),
            d == bytes@.skip(start as int),
            all_digits(d.take(i - start)),
            value == digits_value(d.take(i - start)),
        decreases bytes.len() - i,
    {
        let b: u8 = bytes[i];
        proof {
            assert(d.take(i - start + 1).drop_last() == d.take(i - start));
            assert(d.take(i - start + 1).last() == b);
            assert(d[i - start] == b);
        }
        if b < 0x30 || b > 0x39 {
            return None;
        }
        let digit: usize = (b - 0x30) as usize;
        if value > (usize::MAX - digit) / 10 {
            proof {
                lemma_digits_grow(d, i - start + 1);
            }
            return None;
        }
        value = value * 10 + digit;
        i += 1;
        assert(all_digits(d.take(i - start))) by {
            assert forall|k: int| 0 <= k < i - start implies 0x30 <= #[trigger] d.take(
                i - start,
            )[k] <= 0x39 by {
                if k < i - start - 1 {
                    assert(d.take(i - start - 1)[k] == d.take(i - start)[k]);
                }
            }
        }
    }
    assert(d.take(i - start) == d);
    Some(value)
}

/// What a restore is asked to do.
#[derive(Debug, PartialEq, Eq)]
pub struct Restore {
    /// The index of the memory to write.
    pub index: usize,
    /// Where the new content of the memory is read from.
    pub path: String,
}

/// Reads the arguments of a restore: the index of a memory, written in
/// decimal, and the path of the file that holds its new content. A missing
/// argument and an index that is no number are refused.
pub fn restore(mem_index: Option<String>, src_path: Option<String>) -> (r: Result<Restore, Error>)
    ensures
        match r {
            Ok(plan) => {
                &&& mem_index matches Some(text)
                &&& index_of(encode_utf8(text@)) == Some(plan.index)
                &&& src_path == Some(plan.path)
            },
            Err(e) => {
                &&& e == Error::Argument
                &&& (mem_index is None || src_path is None || index_of(
                    encode_utf8(mem_index->Some_0@),
                ) is None)
            },
        },
{
    let index: usize = match mem_index {
        Some(text) => match parse_index(text.as_str()) {
            Some(index) => index,
            None => {
                return Err(Error::Argument);
            },
        },
        None => {
            return Err(Error::Argument);
        },
    };
    match src_path {
        Some(path) => Ok(Restore { index, path }),
        None => Err(Error::Argument),
    }
}

/// The memory that a restore writes: the one at `index` in the list that the
/// radio gave. An index behind the end of the list is refused.
pub fn target(mem_list: &Vec<MemInfo>, index: usize) -> (r: Result<MemInfo, Error>)
    ensures
        r.is_ok() <==> index < mem_list@.len(),
        r matches Ok(mem) ==> mem == mem_list@[index as int],
        r matches Err(e) ==> e == Error::Argument,
{
    if index < mem_list.len() {
        Ok(mem_list[index])
    } else {
        Err(Error::Argument)
    }
}

/// Where a backup stands.
#[derive(Clone, Copy, Debug, PartialEq, Eq, Structural)]
pub enum Stage {
    /// Waits for the name of the radio.
    Name,
    /// Waits for the radio to enter file transfer mode.
    FileTransfer,
    /// Waits for the list of memories.
    Memories,
    /// Waits for the radio to agree to the dump of a memory.
    Dump,
    /// Receives the blocks of a memory.
    Receive,
    /// Every memory is stored.
    Done,
    /// An error has ended the backup.
    Failed,
}

/// What a step of a backup asks to be done with the output of a memory.
#[derive(Debug, PartialEq, Eq)]
pub enum Output {
    /// Nothing.
    Nothing,
    /// Create the output of the memory with this index, empty.
    Create(usize),
    /// Append these bytes to the output of the memory with this index.
    Append(usize, Vec<u8>),
}

/// What the caller does after a step of a backup: first with the output,
/// then with the line.
#[derive(Debug, PartialEq, Eq)]
pub struct Step {
    /// What to do with the output of a memory.
    pub output: Output,
    /// The bytes to write to the line; none while the backup waits.
    pub write: Vec<u8>,
}

/// A step that asks for nothing: the backup waits for more bytes.
pub open spec fn idle(step: Step) -> bool {
    step.output is Nothing && step.write@.len() == 0
}

/// A backup of every memory of the radio: the name of the radio is read,
/// the radio is put into file transfer mode, its memories are listed, and
/// each memory is dumped in turn.
#[derive(Debug)]
pub struct Backup {
    stage: Stage,
    name: String,
    memories: Vec<MemInfo>,
    index: usize,
    receiver: Receiver,
}

/// The bytes that ask for the dump of the memory with index `index`.
pub open spec fn dump_request(index: usize) -> Seq<u8> {
    slip::encoded(wire(fmp::command(fmp::Opcode::DUMP, fmp::index_param(index))))
}

/// What a backup writes once the memory with index `index` is stored, after
/// the bytes `first`: the request for the next memory, if there is one.
pub open spec fn then_next(first: Seq<u8>, index: usize, count: nat) -> Seq<u8> {
    if index + 1 < count {
        first + dump_request((index + 1) as usize)
    } else {
        first
    }
}

/// Where a backup stands once the memory with index `index` is stored.
pub open spec fn stage_after(index: usize, count: nat) -> Stage {
    if index + 1 < count {
        Stage::Dump
    } else {
        Stage::Done
    }
}

impl Backup {
    /// Where the backup stands.
    pub closed spec fn stage(&self) -> Stage {
        self.stage
    }

    /// The name of the radio; empty until it is known.
    pub closed spec fn name(&self) -> Seq<char> {
        self.name@
    }

    /// The memories of the radio; none until they are known.
    pub closed spec fn memories(&self) -> Seq<MemInfo> {
        self.memories@
    }

    /// The index of the memory that is dumped.
    pub closed spec fn index(&self) -> usize {
        self.index
    }

    /// How far the transfer of that memory has come.
    pub closed spec fn progress(&self) -> Progress {
        self.receiver@
    }

    /// The memory that is dumped is one of the list, and no more of it is
    /// counted as received than it has.
    pub closed spec fn wf(&self) -> bool {
        &&& self.receiver.wf()
        &&& (self.stage == Stage::Dump || self.stage == Stage::Receive) ==> self.index
            < self.memories@.len()
        &&& self.stage == Stage::Receive ==> {
            &&& self.receiver@.size == self.memories@[self.index as int].size
            &&& self.receiver@.received < self.receiver@.size
        }
    }

    /// Whether the link is in the state that the stage of the backup needs:
    /// held while an answer or a block is due, free at the end.
    pub open spec fn fits(&self, link: Link) -> bool {
        &&& self.wf()
        &&& (self.stage() == Stage::Name || self.stage() == Stage::FileTransfer || self.stage()
            == Stage::Receive) ==> link.held()
        &&& (self.stage() == Stage::Done || self.stage() == Stage::Failed) ==> !link.held()
    }

    /// Where the backup stands.
    pub fn current_stage(&self) -> (stage: Stage)
        ensures
            stage == self.stage(),
    {
        self.stage
    }

    /// The name of the radio; empty until it is known.
    pub fn radio_name(&self) -> (name: &String)
        ensures
            name@ == self.name(),
    {
        &self.name
    }

    /// The memories of the radio; none until they are known.
    pub fn memory_list(&self) -> (list: &Vec<MemInfo>)
        ensures
            list@ == self.memories(),
    {
        &self.memories
    }

    /// The index of the memory that is dumped.
    pub fn current_index(&self) -> (index: usize)
        ensures
            index == self.index(),
    {
        self.index
    }

    /// The bytes received of the memory that is dumped.
    pub fn received(&self) -> (n: usize)
        ensures
            n == self.progress().received,
    {
        self.receiver.received()
    }

    /// Moves on from the memory that is stored: asks for the next memory,
    /// or ends the backup behind the last.
    fn advance(&mut self, link: &mut Link, first: Vec<u8>) -> (write: Vec<u8>)
        requires
            old(self).index < old(self).memories@.len(),
            !old(link).held(),
        ensures
            !final(link).held(),
            final(link).pending() == old(link).pending(),
            final(link).queued() == old(link).queued(),
            write@ == then_next(first@, old(self).index, old(self).memories@.len()),
            final(self).stage == stage_after(old(self).index, old(self).memories@.len()),
            final(self).index == if old(self).index + 1 < old(self).memories@.len() {
                old(self).index + 1
            } else {
                old(self).index as int
            },
            final(self).memories == old(self).memories,
            final(self).name == old(self).name,
            final(self).receiver == old(self).receiver,
    {
        let mut write: Vec<u8> = first;
        let count: usize = self.memories.len();
        if self.index < count - 1 {
            self.index = self.index + 1;
            self.stage = Stage::Dump;
            let mut request: Vec<u8> = fmp::dump(link, self.index);
            write.append(&mut request);
        } else {
            self.stage = Stage::Done;
        }
        write
    }
}

/// The protocol of the frame that a backup waits for.
pub open spec fn awaited(stage: Stage) -> Protocol {
    match stage {
        Stage::Name => Protocol::CAT,
        Stage::FileTransfer => Protocol::CAT,
        Stage::Receive => Protocol::DAT,
        _ => Protocol::FMP,
    }
}

/// The bytes that acknowledge a block or start a transfer.
pub open spec fn ack_bytes() -> Seq<u8> {
    slip::encoded(wire(dat::ack_frame()))
}

impl Backup {
    /// Takes in the bytes `chunk` read from the line and moves the backup
    /// on by what they bring.
    ///
    /// While the frame that the backup waits for has not come, the step
    /// asks for nothing. The name of the radio is answered with the request
    /// for file transfer mode, its acknowledgement with the request for the
    /// list of memories, and the list with the request to dump the first
    /// memory. When the radio agrees to a dump, the output of that memory is
    /// to be created and the transfer is started; each block of the memory
    /// is to be appended to the output and is acknowledged. Behind the last
    /// block of a memory follows the request for the next memory, and behind
    /// the last memory the backup is done. Every error ends the backup and
    /// frees the link. A backup that is done or has failed asks for nothing
    /// and leaves the link alone.
    pub fn step(&mut self, link: &mut Link, chunk: &[u8]) -> (r: Result<Step, Error>)
        requires
            old(self).fits(*old(link)),
        ensures
            final(self).fits(*final(link)),
            r is Err ==> final(self).stage() == Stage::Failed,
            old(self).stage() != Stage::Name ==> final(self).name() == old(self).name(),
            old(self).stage() != Stage::Memories ==> final(self).memories() == old(self).memories(),
            match old(self).stage() {
                Stage::Done | Stage::Failed => {
                    &&& r matches Ok(step) && idle(step)
                    &&& final(self).stage() == old(self).stage()
                    &&& final(link).pending() == old(link).pending()
                    &&& final(link).queued() == old(link).queued()
                },
                _ => {
                    &&& final(link).pending() == remainder(old(link).pending() + chunk@)
                    &&& final(link).queued() == old(link).left(
                        awaited(old(self).stage()),
                        chunk@,
                    )
                },
            },
            old(self).stage() == Stage::Name ==> match cat::info_outcome(
                old(link).found(Protocol::CAT, chunk@),
            ) {
                Ok(None) => r matches Ok(step) && idle(step) && final(self).stage() == Stage::Name,
                Ok(Some(name)) => {
                    &&& r matches Ok(step) && step.output is Nothing && step.write@
                        == slip::encoded(
                        wire(cat::request(cat::Opcode::SET, cat::ID::FILETRANSFER, Seq::empty())),
                    )
                    &&& final(self).stage() == Stage::FileTransfer
                    &&& final(self).name() == name
                },
                Err(e) => r matches Err(err) && err == e,
            },
            old(self).stage() == Stage::FileTransfer ==> match cat::set_outcome(
                old(link).found(Protocol::CAT, chunk@),
            ) {
                Ok(false) => r matches Ok(step) && idle(step) && final(self).stage()
                    == Stage::FileTransfer,
                Ok(true) => {
                    &&& r matches Ok(step) && step.output is Nothing && step.write@
                        == slip::encoded(wire(fmp::command(fmp::Opcode::MEMINFO, Seq::empty())))
                    &&& final(self).stage() == Stage::Memories
                },
                Err(e) => r matches Err(err) && err == e,
            },
            old(self).stage() == Stage::Memories ==> match fmp::reply_outcome(
                old(link).found(Protocol::FMP, chunk@),
                fmp::Opcode::MEMINFO,
            ) {
                Ok(None) => r matches Ok(step) && idle(step) && final(self).stage()
                    == Stage::Memories,
                Ok(Some(reply)) => match fmp::listing_error(reply) {
                    Some(e) => r matches Err(err) && err == e,
                    None => {
                        &&& fmp::lists(reply.params, final(self).memories())
                        &&& r matches Ok(step) && step.output is Nothing && step.write@
                            == if reply.params.len() == 0 {
                            Seq::<u8>::empty()
                        } else {
                            dump_request(0)
                        }
                        &&& final(self).stage() == if reply.params.len() == 0 {
                            Stage::Done
                        } else {
                            Stage::Dump
                        }
                        &&& final(self).index() == 0
                    },
                },
                Err(e) => r matches Err(err) && err == e,
            },
            old(self).stage() == Stage::Dump ==> match fmp::reply_outcome(
                old(link).found(Protocol::FMP, chunk@),
                fmp::Opcode::DUMP,
            ) {
                Ok(None) => r matches Ok(step) && idle(step) && final(self).stage() == Stage::Dump
                    && final(self).index() == old(self).index(),
                Ok(Some(reply)) => match fmp::refusal(reply) {
                    Some(e) => r matches Err(err) && err == e,
                    None => {
                        let index = old(self).index();
                        let count = old(self).memories().len();
                        let size = old(self).memories()[index as int].size;
                        &&& r matches Ok(step) && step.output == Output::Create(index)
                            && step.write@ == if size == 0 {
                            then_next(ack_bytes(), index, count)
                        } else {
                            ack_bytes()
                        }
                        &&& final(self).stage() == if size == 0 {
                            stage_after(index, count)
                        } else {
                            Stage::Receive
                        }
                        &&& size != 0 ==> final(self).index() == index && final(self).progress()
                            == (Progress { size: size as nat, received: 0, prev_block: 0 })
                        &&& size == 0 && index + 1 < count ==> final(self).index() == index + 1
                    },
                },
                Err(e) => r matches Err(err) && err == e,
            },
            old(self).stage() == Stage::Receive ==> match dat::block_outcome(
                old(self).progress(),
                old(link).found(Protocol::DAT, chunk@),
            ) {
                Ok(None) => r matches Ok(step) && idle(step) && final(self).stage()
                    == Stage::Receive && final(self).index() == old(self).index() && final(self).progress() == old(self).progress(),
                Ok(Some(p)) => {
                    let index = old(self).index();
                    let count = old(self).memories().len();
                    let data = old(link).found(Protocol::DAT, chunk@)->Ok_0->Some_0.data;
                    &&& r matches Ok(step) && (step.output matches Output::Append(i, payload) && i
                        == index && payload@ == data.skip(2)) && step.write@ == if p.received
                        == p.size {
                        then_next(ack_bytes(), index, count)
                    } else {
                        ack_bytes()
                    }
                    &&& final(self).stage() == if p.received == p.size {
                        stage_after(index, count)
                    } else {
                        Stage::Receive
                    }
                    &&& p.received != p.size ==> final(self).index() == index && final(self).progress() == p
                    &&& p.received == p.size && index + 1 < count ==> final(self).index() == index
                        + 1
                },
                Err(e) => r matches Err(err) && err == e,
            },
    {
        match self.stage {
            Stage::Name => match cat::info(link, chunk) {
                Ok(Some(name)) => {
                    self.name = name;
                    self.stage = Stage::FileTransfer;
                    Ok(Step { output: Output::Nothing, write: cat::ftm(link) })
                },
                Ok(None) => Ok(Step { output: Output::Nothing, write: Vec::new() }),
                Err(e) => {
                    self.stage = Stage::Failed;
                    Err(e)
                },
            },
            Stage::FileTransfer => match cat::set_reply(link, chunk) {
                Ok(true) => {
                    self.stage = Stage::Memories;
                    Ok(Step { output: Output::Nothing, write: fmp::meminfo(link) })
                },
                Ok(false) => Ok(Step { output: Output::Nothing, write: Vec::new() }),
                Err(e) => {
                    self.stage = Stage::Failed;
                    Err(e)
                },
            },
            Stage::Memories => match fmp::meminfo_reply(link, chunk) {
                Ok(Some(list)) => {
                    self.memories = list;
                    self.index = 0;
                    if self.memories.len() == 0 {
                        self.stage = Stage::Done;
                        Ok(Step { output: Output::Nothing, write: Vec::new() })
                    } else {
                        self.stage = Stage::Dump;
                        Ok(Step { output: Output::Nothing, write: fmp::dump(link, 0) })
                    }
                },
                Ok(None) => Ok(Step { output: Output::Nothing, write: Vec::new() }),
                Err(e) => {
                    self.stage = Stage::Failed;
                    Err(e)
                },
            },
            Stage::Dump => {
                let mem: MemInfo = self.memories[self.index];
                match fmp::dump_reply(link, &mem, chunk) {
                    Ok(Some(start)) => {
                        let index: usize = self.index;
                        let (receiver, first) = start;
                        let write: Vec<u8> = if receiver.is_complete() {
                            self.advance(link, first)
                        } else {
                            self.receiver = receiver;
                            self.stage = Stage::Receive;
                            first
                        };
                        Ok(Step { output: Output::Create(index), write })
                    },
                    Ok(None) => Ok(Step { output: Output::Nothing, write: Vec::new() }),
                    Err(e) => {
                        self.stage = Stage::Failed;
                        Err(e)
                    },
                }
            },
            Stage::Receive => match self.receiver.block(link, chunk) {
                Ok(Some(block)) => {
                    let index: usize = self.index;
                    let write: Vec<u8> = if self.receiver.is_complete() {
                        self.advance(link, block.ack)
                    } else {
                        block.ack
                    };
                    Ok(Step { output: Output::Append(index, block.payload), write })
                },
                Ok(None) => Ok(Step { output: Output::Nothing, write: Vec::new() }),
                Err(e) => {
                    self.stage = Stage::Failed;
                    Err(e)
                },
            },
            Stage::Done => Ok(Step { output: Output::Nothing, write: Vec::new() }),
            Stage::Failed => Ok(Step { output: Output::Nothing, write: Vec::new() }),
        }
    }
}

/// Opens a backup: takes the link and returns the state of the backup with
/// the bytes to write, which ask the radio for its name.
pub fn backup(link: &mut Link) -> (r: (Backup, Vec<u8>))
    requires
        !old(link).held(),
    ensures
        r.0.fits(*final(link)),
        r.0.stage() == Stage::Name,
        r.0.name() == Seq::<char>::empty(),
        r.0.memories() == Seq::<MemInfo>::empty(),
        r.1@ == slip::encoded(wire(cat::request(cat::Opcode::GET, cat::ID::INFO, Seq::empty()))),
        final(link).held(),
        final(link).pending() == old(link).pending(),
        final(link).queued() == old(link).queued(),
{
    let write: Vec<u8> = cat::get(link, cat::ID::INFO);
    let state = Backup {
        stage: Stage::Name,
        name: String::new(),
        memories: Vec::new(),
        index: 0,
        receiver: Receiver::new(0),
    };
    (state, write)
}

/// Where a restore stands.
#[derive(Clone, Copy, Debug, PartialEq, Eq, Structural)]
pub enum RestoreStage {
    /// Waits for the list of memories.
    Memories,
    /// Waits for the radio to agree to the flash of the memory.
    Flash,
    /// Sends the blocks of the new content and waits for their
    /// acknowledgements.
    Blocks,
    /// Every block is acknowledged.
    Done,
    /// An error has ended the restore.
    Failed,
}

/// A restore of one memory of the radio: the memories are listed, the
/// memory is looked up, the radio is told to flash it, and the new content
/// is sent block by block.
#[derive(Debug)]
pub struct Restorer {
    stage: RestoreStage,
    index: usize,
    mem: MemInfo,
    content: Vec<u8>,
    frames: Vec<Frame>,
    sent: usize,
}

/// The bytes that ask for the flash of the memory with index `index`.
pub open spec fn flash_request(index: usize) -> Seq<u8> {
    slip::encoded(wire(fmp::command(fmp::Opcode::FLASH, fmp::index_param(index))))
}

/// The bytes that carry block `k` of `content`, counting blocks from 1.
pub open spec fn block_bytes(content: Seq<u8>, k: int) -> Seq<u8> {
    slip::encoded(
        wire(crate::link::FrameView { proto: Protocol::DAT, data: dat::block_data(content, k) }),
    )
}

impl Restorer {
    /// Where the restore stands.
    pub closed spec fn stage(&self) -> RestoreStage {
        self.stage
    }

    /// The index of the memory that is written.
    pub closed spec fn index(&self) -> usize {
        self.index
    }

    /// The memory that is written, once the radio has listed it.
    pub closed spec fn memory(&self) -> MemInfo {
        self.mem
    }

    /// The new content of the memory.
    pub closed spec fn content(&self) -> Seq<u8> {
        self.content@
    }

    /// How many blocks have been sent.
    pub closed spec fn sent(&self) -> nat {
        self.sent as nat
    }

    /// While blocks are sent, they are the blocks of the content, at least
    /// one of them is sent, and no more are sent than there are.
    pub closed spec fn wf(&self) -> bool {
        self.stage == RestoreStage::Blocks ==> {
            &&& dat::frame_data(self.frames@) == dat::blocks(self.content@)
            &&& forall|k: int|
                0 <= k < self.frames@.len() ==> (#[trigger] self.frames@[k]).proto == Protocol::DAT
            &&& 1 <= self.sent <= self.frames@.len()
        }
    }

    /// Whether the link is in the state that the stage of the restore needs:
    /// held while an acknowledgement is due, free at the end.
    pub open spec fn fits(&self, link: Link) -> bool {
        &&& self.wf()
        &&& self.stage() == RestoreStage::Blocks ==> link.held()
        &&& (self.stage() == RestoreStage::Done || self.stage() == RestoreStage::Failed)
            ==> !link.held()
    }

    /// Where the restore stands.
    pub fn current_stage(&self) -> (stage: RestoreStage)
        ensures
            stage == self.stage(),
    {
        self.stage
    }

    /// How many blocks have been sent.
    pub fn blocks_sent(&self) -> (n: usize)
        ensures
            n == self.sent(),
    {
        self.sent
    }

    /// How many bytes the new content has.
    pub fn size(&self) -> (n: usize)
        ensures
            n == self.content().len(),
    {
        self.content.len()
    }

    /// Takes in the bytes `chunk` read from the line and moves the restore
    /// on by what they bring.
    ///
    /// While the frame that the restore waits for has not come, the result
    /// is no bytes. The list of memories is answered with the request to
    /// flash the memory, if the list has it; else the restore fails with an
    /// argument error. When the radio agrees, the first block is sent, and
    /// each acknowledgement is answered with the next block. Content of
    /// another length than the memory is a size mismatch. Behind the last
    /// acknowledgement the restore is done. Every error ends the restore and
    /// frees the link. A restore that is done or has failed writes nothing
    /// and leaves the link alone.
    pub fn step(&mut self, link: &mut Link, chunk: &[u8]) -> (r: Result<Vec<u8>, Error>)
        requires
            old(self).fits(*old(link)),
        ensures
            final(self).fits(*final(link)),
            r is Err ==> final(self).stage() == RestoreStage::Failed,
            final(self).index() == old(self).index(),
            final(self).content() == old(self).content(),
            match old(self).stage() {
                RestoreStage::Done | RestoreStage::Failed => {
                    &&& r matches Ok(write) && write@.len() == 0
                    &&& final(self).stage() == old(self).stage()
                    &&& final(link).pending() == old(link).pending()
                    &&& final(link).queued() == old(link).queued()
                },
                RestoreStage::Blocks => {
                    &&& final(link).pending() == remainder(old(link).pending() + chunk@)
                    &&& final(link).queued() == old(link).left(Protocol::DAT, chunk@)
                },
                _ => {
                    &&& final(link).pending() == remainder(old(link).pending() + chunk@)
                    &&& final(link).queued() == old(link).left(Protocol::FMP, chunk@)
                },
            },
            old(self).stage() == RestoreStage::Memories ==> match fmp::reply_outcome(
                old(link).found(Protocol::FMP, chunk@),
                fmp::Opcode::MEMINFO,
            ) {
                Ok(None) => r matches Ok(write) && write@.len() == 0 && final(self).stage()
                    == RestoreStage::Memories,
                Ok(Some(reply)) => match fmp::listing_error(reply) {
                    Some(e) => r matches Err(err) && err == e,
                    None => if old(self).index() < reply.params.len() {
                        &&& r matches Ok(write) && write@ == flash_request(old(self).index())
                        &&& final(self).stage() == RestoreStage::Flash
                        &&& fmp::describes(
                            reply.params[old(self).index() as int],
                            final(self).memory(),
                        )
                    } else {
                        r matches Err(err) && err == Error::Argument
                    },
                },
                Err(e) => r matches Err(err) && err == e,
            },
            old(self).stage() == RestoreStage::Flash ==> match fmp::reply_outcome(
                old(link).found(Protocol::FMP, chunk@),
                fmp::Opcode::FLASH,
            ) {
                Ok(None) => r matches Ok(write) && write@.len() == 0 && final(self).stage()
                    == RestoreStage::Flash,
                Ok(Some(reply)) => match fmp::refusal(reply) {
                    Some(e) => r matches Err(err) && err == e,
                    None => if old(self).content().len() != old(self).memory().size {
                        r matches Err(err) && err == Error::SizeMismatch
                    } else if old(self).content().len() == 0 {
                        &&& r matches Ok(write) && write@.len() == 0
                        &&& final(self).stage() == RestoreStage::Done
                    } else {
                        &&& r matches Ok(write) && write@ == block_bytes(old(self).content(), 1)
                        &&& final(self).stage() == RestoreStage::Blocks
                        &&& final(self).sent() == 1
                    },
                },
                Err(e) => r matches Err(err) && err == e,
            },
            old(self).stage() != RestoreStage::Memories ==> final(self).memory() == old(self).memory(),
            old(self).stage() == RestoreStage::Blocks ==> match dat::ack_outcome(
                old(link).found(Protocol::DAT, chunk@),
            ) {
                Ok(false) => r matches Ok(write) && write@.len() == 0 && final(self).stage()
                    == RestoreStage::Blocks && final(self).sent() == old(self).sent(),
                Ok(true) => if old(self).sent() < dat::block_count(old(self).content().len()) {
                    &&& r matches Ok(write) && write@ == block_bytes(
                        old(self).content(),
                        (old(self).sent() + 1) as int,
                    )
                    &&& final(self).stage() == RestoreStage::Blocks
                    &&& final(self).sent() == old(self).sent() + 1
                } else {
                    &&& r matches Ok(write) && write@.len() == 0
                    &&& final(self).stage() == RestoreStage::Done
                },
                Err(e) => r matches Err(err) && err == e,
            },
    {
        match self.stage {
            RestoreStage::Memories => match fmp::meminfo_reply(link, chunk) {
                Ok(Some(list)) => match target(&list, self.index) {
                    Ok(mem) => {
                        self.mem = mem;
                        self.stage = RestoreStage::Flash;
                        Ok(fmp::flash(link, self.index))
                    },
                    Err(e) => {
                        self.stage = RestoreStage::Failed;
                        Err(e)
                    },
                },
                Ok(None) => Ok(Vec::new()),
                Err(e) => {
                    self.stage = RestoreStage::Failed;
                    Err(e)
                },
            },
            RestoreStage::Flash => {
                let mem: MemInfo = self.mem;
                match fmp::flash_reply(link, &mem, self.content.as_slice(), chunk) {
                    Ok(Some(frames)) => {
                        assert(dat::frame_data(frames@).len() == dat::blocks(self.content@).len());
                        if frames.len() == 0 {
                            self.stage = RestoreStage::Done;
                            Ok(Vec::new())
                        } else {
                            let frame: Frame = frames[0].copy();
                            assert(frame@.data == dat::frame_data(frames@)[0]);
                            assert(frames@[0].proto == Protocol::DAT);
                            self.frames = frames;
                            self.sent = 1;
                            self.stage = RestoreStage::Blocks;
                            Ok(link.begin(frame))
                        }
                    },
                    Ok(None) => Ok(Vec::new()),
                    Err(e) => {
                        self.stage = RestoreStage::Failed;
                        Err(e)
                    },
                }
            },
            RestoreStage::Blocks => match dat::wait_ack(link, chunk) {
                Ok(true) => {
                    assert(dat::frame_data(self.frames@).len() == dat::blocks(self.content@).len());
                    if self.sent < self.frames.len() {
                        let frame: Frame = self.frames[self.sent].copy();
                        assert(frame@.data == dat::frame_data(self.frames@)[self.sent as int]);
                        assert(self.frames@[self.sent as int].proto == Protocol::DAT);
                        self.sent = self.sent + 1;
                        Ok(link.begin(frame))
                    } else {
                        self.stage = RestoreStage::Done;
                        Ok(Vec::new())
                    }
                },
                Ok(false) => Ok(Vec::new()),
                Err(e) => {
                    self.stage = RestoreStage::Failed;
                    Err(e)
                },
            },
            RestoreStage::Done => Ok(Vec::new()),
            RestoreStage::Failed => Ok(Vec::new()),
        }
    }
}

impl Restore {
    /// Opens the restore that this plan describes, with `content` as the
    /// new content of the memory: returns the state of the restore with the
    /// bytes to write, which ask the radio for its memories.
    pub fn start(&self, link: &mut Link, content: Vec<u8>) -> (r: (Restorer, Vec<u8>))
        requires
            !old(link).held(),
        ensures
            r.0.fits(*final(link)),
            r.0.stage() == RestoreStage::Memories,
            r.0.index() == self.index,
            r.0.content() == content@,
            r.1@ == slip::encoded(wire(fmp::command(fmp::Opcode::MEMINFO, Seq::empty()))),
            !final(link).held(),
            final(link).pending() == old(link).pending(),
            final(link).queued() == old(link).queued(),
    {
        let write: Vec<u8> = fmp::meminfo(link);
        let state = Restorer {
            stage: RestoreStage::Memories,
            index: self.index,
            mem: MemInfo { size: 0, flags: 0, name: [0u8; 27] },
            content,
            frames: Vec::new(),
            sent: 0,
        };
        (state, write)
    }
}

} // verus!
