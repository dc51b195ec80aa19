//! Ports: the operating-system edges of the library. The embedding program
//! supplies the file, socket and clock behind these traits; the library's
//! contracts speak about them through a ghost trace of positional writes.

use vstd::prelude::*;

verus! {

/// Failures of shared-memory access.
#[derive(Clone, Copy, Debug, PartialEq, Eq, Structural)]
pub enum ShmError {
    /// The underlying read or write failed.
    Io,
    /// The region's `valid` byte is zero, or its content is not sane.
    Invalid,
    /// The mapped path now names a different file; the mapping is stale.
    Stale,
}

/// Positional access to one monitor's shared-memory region, plus the small
/// operating-system services the trigger handshake needs. Implementations
/// are expected to be a real file opened on the host's tmpfs, or an
/// in-memory simulation.
///
/// `writes()` is the ghost trace of every positional write accepted so far,
/// oldest first; each method's contract states how it changes that trace,
/// and nothing else is assumed of the region's volatile content.
pub trait ShmPort: Sized {
    /// The positional writes accepted so far: `(offset, bytes)` pairs.
    spec fn writes(&self) -> Seq<(usize, Seq<u8>)>;

    /// Read exactly `len` bytes at `offset`. The publisher races this call,
    /// so nothing is promised of the bytes but their number.
    fn read_at(&mut self, offset: usize, len: usize) -> (r: Result<Vec<u8>, ShmError>)
        ensures
            final(self).writes() == old(self).writes(),
            r is Ok ==> r->Ok_0@.len() == len,
    ;

    /// Write `data` at `offset`; on success the write is appended to the
    /// trace.
    fn write_at(&mut self, offset: usize, data: &[u8]) -> (r: Result<(), ShmError>)
        ensures
            r is Ok ==> final(self).writes() == old(self).writes().push((offset, data@)),
            r is Err ==> final(self).writes() == old(self).writes(),
    ;

    /// The inode the mapped path currently resolves to.
    fn inode(&mut self) -> (r: Result<u64, ShmError>)
        ensures
            final(self).writes() == old(self).writes(),
    ;

    /// Block the calling thread for `ms` milliseconds.
    fn sleep_ms(&mut self, ms: u32)
        ensures
            final(self).writes() == old(self).writes(),
    ;
}

/// One scripted mutation of a simulated region: once `at_read` reads have
/// been served, `bytes` appear at `offset`. This stands in for the host's
/// publisher in tests.
pub struct ScriptStep {
    pub at_read: usize,
    pub offset: usize,
    pub bytes: Vec<u8>,
}

/// An in-memory region with a scripted publisher: a fully verified
/// `ShmPort` for tests and dry runs.
pub struct SimPort {
    /// The region's bytes.
    pub bytes: Vec<u8>,
    /// The inode reported for the region's path.
    pub inode: u64,
    /// Pending publisher mutations, in the order they fire.
    pub script: Vec<ScriptStep>,
    /// Pending inode changes, `(at_read, new inode)`, in firing order.
    pub inode_script: Vec<(usize, u64)>,
    /// How many reads have been served.
    pub reads_done: usize,
    /// Every accepted write, oldest first: the trace, observable at run
    /// time.
    pub write_log: Vec<(usize, Vec<u8>)>,
}

impl SimPort {
    /// A quiescent region over the given bytes.
    pub fn new(bytes: Vec<u8>, inode: u64) -> (r: SimPort)
        ensures
            r.writes() == Seq::<(usize, Seq<u8>)>::empty(),
            r.bytes == bytes,
            r.inode == inode,
    {
        let r = SimPort {
            bytes,
            inode,
            script: Vec::new(),
            inode_script: Vec::new(),
            reads_done: 0,
            write_log: Vec::new(),
        };
        proof {
            assert(r.writes() =~= Seq::<(usize, Seq<u8>)>::empty());
        }
        r
    }

    fn apply_due(&mut self)
        ensures
            final(self).writes() == old(self).writes(),
    {
        loop
            invariant
                self.writes() == old(self).writes(),
            decreases self.script@.len(),
        {
            if self.script.len() == 0 {
                break;
            }
            if self.script[0].at_read > self.reads_done {
                break;
            }
            let step = self.script.remove(0);
            overwrite(&mut self.bytes, step.offset, &step.bytes);
        }
        loop
            invariant
                self.writes() == old(self).writes(),
            decreases self.inode_script@.len(),
        {
            if self.inode_script.len() == 0 {
                break;
            }
            if self.inode_script[0].0 > self.reads_done {
                break;
            }
            let step = self.inode_script.remove(0);
            self.inode = step.1;
        }
    }
}

/// Copy `data` over `bytes` at `offset`, when it fits; otherwise leave the
/// region untouched.
fn overwrite(bytes: &mut Vec<u8>, offset: usize, data: &[u8])
    ensures
        final(bytes)@.len() == old(bytes)@.len(),
{
    if data.len() > bytes.len() || offset > bytes.len() - data.len() {
        return ;
    }
    let n: usize = bytes.len();
    let mut k: usize = 0;
    while k < data.len()
        invariant
            k <= data@.len(),
            offset + data@.len() <= bytes@.len(),
            n == bytes@.len(),
            bytes@.len() == old(bytes)@.len(),
        decreases data@.len() - k,
    {
        bytes[offset + k] = data[k];
        k = k + 1;
    }
}

impl ShmPort for SimPort {
    open spec fn writes(&self) -> Seq<(usize, Seq<u8>)> {
        self.write_log@.map_values(|p: (usize, Vec<u8>)| (p.0, p.1@))
    }

    fn read_at(&mut self, offset: usize, len: usize) -> (r: Result<Vec<u8>, ShmError>) {
        if self.reads_done < usize::MAX {
            self.reads_done = self.reads_done + 1;
        }
        self.apply_due();
        if len > self.bytes.len() || offset > self.bytes.len() - len {
            return Err(ShmError::Io);
        }
        let out = vstd::slice::slice_to_vec(
            vstd::slice::slice_subrange(self.bytes.as_slice(), offset, offset + len),
        );
        Ok(out)
    }

    fn write_at(&mut self, offset: usize, data: &[u8]) -> (r: Result<(), ShmError>) {
        if data.len() > self.bytes.len() || offset > self.bytes.len() - data.len() {
            return Err(ShmError::Io);
        }
        overwrite(&mut self.bytes, offset, data);
        let entry = vstd::slice::slice_to_vec(data);
        let ghost before = self.writes();
        self.write_log.push((offset, entry));
        proof {
            assert(self.writes() =~= before.push((offset, data@)));
        }
        Ok(())
    }

    fn inode(&mut self) -> (r: Result<u64, ShmError>) {
        self.apply_due();
        Ok(self.inode)
    }

    fn sleep_ms(&mut self, _ms: u32) {
    }
}

/// The socket carrying textual commands to the host's trigger daemon. The
/// embedding program implements it over the daemon's Unix socket.
///
/// `sent()` is the ghost trace of commands accepted so far; nothing is
/// assumed of the daemon's reply.
pub trait TriggerPort: Sized {
    /// The commands sent so far.
    spec fn sent(&self) -> Seq<Seq<u8>>;

    /// Send one command; when a reply is requested, return the daemon's
    /// reply line.
    fn send_command(&mut self, command: &[u8], want_reply: bool) -> (r: Result<
        Vec<u8>,
        ShmError,
    >)
        ensures
            r is Ok ==> final(self).sent() == old(self).sent().push(command@),
            r is Err ==> final(self).sent() == old(self).sent(),
    ;
}

/// An in-memory trigger daemon with scripted replies, for tests.
pub struct SimTriggerPort {
    /// Replies to hand out, front first.
    pub replies: Vec<Vec<u8>>,
    /// Every command accepted, oldest first.
    pub sent_log: Vec<Vec<u8>>,
}

impl SimTriggerPort {
    pub fn new(replies: Vec<Vec<u8>>) -> (r: SimTriggerPort)
        ensures
            r.sent() == Seq::<Seq<u8>>::empty(),
    {
        let r = SimTriggerPort { replies, sent_log: Vec::new() };
        proof {
            assert(r.sent() =~= Seq::<Seq<u8>>::empty());
        }
        r
    }
}

impl TriggerPort for SimTriggerPort {
    open spec fn sent(&self) -> Seq<Seq<u8>> {
        self.sent_log@.map_values(|c: Vec<u8>| c@)
    }

    fn send_command(&mut self, command: &[u8], want_reply: bool) -> (r: Result<
        Vec<u8>,
        ShmError,
    >) {
        let ghost before = self.sent();
        let reply: Vec<u8> = if want_reply {
            if self.replies.len() == 0 {
                return Err(ShmError::Io);
            }
            self.replies.remove(0)
        } else {
            Vec::new()
        };
        self.sent_log.push(vstd::slice::slice_to_vec(command));
        proof {
            assert(self.sent() =~= before.push(command@));
        }
        Ok(reply)
    }
}

} // verus!
