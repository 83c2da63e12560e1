//! Per-invocation port router: a FIFO of pending packets and an open-bracket
//! counter for every `(node, port)` input, plus the invocation's external
//! output channel and its error latch. Delivery preserves per-edge FIFO order;
//! bracket misuse and hard errors latch the invocation.
use crate::packet::packet_fatal;
use crate::packet::Packet;
use crate::packet::PacketView;
use crate::packet::PortPacket;
use crate::SCHEMATIC_OUTPUT;
use vstd::prelude::*;

verus! {

/// The pending input traffic of one `(node, port)` destination.
pub struct PortBuffer {
    /// The consuming node.
    pub node: usize,
    /// The consuming port.
    pub port: String,
    /// Pending packets, oldest first.
    pub queue: Vec<Packet>,
    /// Open bracket depth of the traffic delivered so far.
    pub depth: u64,
    /// Whether `Done` has been delivered.
    pub done: bool,
    /// Whether the port declares a static default packet.
    pub has_default: bool,
    /// The default packet bytes, used when the queue is empty.
    pub default_data: Vec<u8>,
    /// Everything ever delivered to this destination, oldest first.
    pub delivered: Ghost<Seq<PacketView>>,
    /// Everything the consumer has drained, oldest first.
    pub consumed: Ghost<Seq<PacketView>>,
}

/// How a packet changes the open bracket depth.
pub open spec fn depth_delta(p: PacketView) -> int {
    match p {
        PacketView::OpenBracket => 1,
        PacketView::CloseBracket => -1,
        _ => 0,
    }
}

/// The bracket depth after a sequence of packets.
pub open spec fn bracket_depth(s: Seq<PacketView>) -> int
    decreases s.len(),
{
    if s.len() == 0 {
        0
    } else {
        bracket_depth(s.drop_last()) + depth_delta(s.last())
    }
}

/// No prefix of the sequence closes more brackets than were opened.
pub open spec fn bracket_ok(s: Seq<PacketView>) -> bool {
    forall|i: int| 0 <= i <= s.len() ==> bracket_depth(#[trigger] s.subrange(0, i)) >= 0
}

/// The models of the packets of a queue, oldest first.
pub open spec fn queue_view(q: Seq<Packet>) -> Seq<PacketView> {
    q.map_values(|p: Packet| p@)
}

impl PortBuffer {
    /// What holds of every buffer while the invocation has not latched an
    /// error: the bracket counter matches the delivered traffic, which never
    /// over-closed, returns to depth zero by `Done`, and the consumer has
    /// seen exactly the delivered traffic minus what is still queued.
    pub open spec fn wf(&self) -> bool {
        &&& self.depth == bracket_depth(self.delivered@)
        &&& bracket_ok(self.delivered@)
        &&& (self.done ==> self.depth == 0)
        &&& self.consumed@ + queue_view(self.queue@) == self.delivered@
    }
}

/// Router state for one invocation.
pub struct RouterState {
    /// One buffer for each `(node, port)` input destination.
    pub buffers: Vec<PortBuffer>,
    /// The invocation's external output channel, in delivery order.
    pub output: Vec<PortPacket>,
    /// Set when a hard error, an invalid packet, or a bracket mismatch was
    /// delivered anywhere in the invocation.
    pub error_latch: bool,
    /// Why the latch was set.
    pub error_msg: String,
}

/// Index of the buffer of `(node, port)`, if any.
pub open spec fn spec_buf_idx(bufs: Seq<PortBuffer>, node: int, port: Seq<char>) -> int
    decreases bufs.len(),
{
    if bufs.len() == 0 {
        -1
    } else if bufs[0].node == node && bufs[0].port@ == port {
        0
    } else {
        let t = spec_buf_idx(bufs.drop_first(), node, port);
        if t == -1 {
            -1
        } else {
            t + 1
        }
    }
}

/// Whether `(node, port)` has a buffer.
pub open spec fn spec_has_buf(bufs: Seq<PortBuffer>, node: int, port: Seq<char>) -> bool {
    exists|i: int| 0 <= i < bufs.len() && bufs[i].node == node && (#[trigger] bufs[i].port)@
        == port
}

pub proof fn lemma_buf_idx(bufs: Seq<PortBuffer>, node: int, port: Seq<char>)
    ensures
        spec_has_buf(bufs, node, port) <==> 0 <= spec_buf_idx(bufs, node, port) < bufs.len(),
        spec_has_buf(bufs, node, port) ==> {
            let i = spec_buf_idx(bufs, node, port);
            bufs[i].node == node && bufs[i].port@ == port
        },
    decreases bufs.len(),
{
    if bufs.len() > 0 {
        lemma_buf_idx(bufs.drop_first(), node, port);
        if !(bufs[0].node == node && bufs[0].port@ == port) {
            assert forall|i: int|
                0 <= i < bufs.len() && bufs[i].node == node && (#[trigger] bufs[i].port)@
                    == port implies spec_has_buf(bufs.drop_first(), node, port) by {
                assert(bufs.drop_first()[i - 1] == bufs[i]);
            }
            assert forall|i: int|
                0 <= i < bufs.drop_first().len() && bufs.drop_first()[i].node == node && (
                #[trigger] bufs.drop_first()[i].port)@ == port implies spec_has_buf(
                bufs,
                node,
                port,
            ) by {
                assert(bufs[i + 1] == bufs.drop_first()[i]);
            }
        }
    }
}

impl RouterState {
    /// Every buffer keeps its bracket discipline until an error latches.
    pub open spec fn wf(&self) -> bool {
        !self.error_latch ==> forall|i: int|
            0 <= i < self.buffers@.len() ==> (#[trigger] self.buffers@[i]).wf()
    }

    /// A fresh router with no buffers, an empty output channel and a clear
    /// error latch.
    pub fn new() -> (r: RouterState)
        ensures
            r.wf(),
            r.buffers@.len() == 0,
            r.output@.len() == 0,
            !r.error_latch,
    {
        RouterState {
            buffers: Vec::new(),
            output: Vec::new(),
            error_latch: false,
            error_msg: String::new(),
        }
    }

    /// Adds the input buffer of one `(node, port)` destination.
    pub fn add_buffer(&mut self, node: usize, port: String, has_default: bool, default_data: Vec<
        u8,
    >)
        requires
            old(self).wf(),
        ensures
            final(self).wf(),
            final(self).buffers@.len() == old(self).buffers@.len() + 1,
            final(self).buffers@ == old(self).buffers@.push(final(self).buffers@.last()),
            final(self).buffers@.last().node == node,
            final(self).buffers@.last().port@ == port@,
            final(self).buffers@.last().queue@.len() == 0,
            final(self).buffers@.last().has_default == has_default,
            final(self).buffers@.last().default_data@ == default_data@,
            final(self).buffers@.last().done == false,
            final(self).output == old(self).output,
            final(self).error_latch == old(self).error_latch,
    {
        let buf = PortBuffer {
            node,
            port,
            queue: Vec::new(),
            depth: 0,
            done: false,
            has_default,
            default_data,
            delivered: Ghost(Seq::empty()),
            consumed: Ghost(Seq::empty()),
        };
        proof {
            assert(queue_view(buf.queue@) =~= Seq::<PacketView>::empty());
            assert(buf.consumed@ + queue_view(buf.queue@) =~= buf.delivered@);
        }
        self.buffers.push(buf);
    }

    /// Index of the buffer of `(node, port)`, if any.
    pub fn find_buffer(&self, node: usize, port: &String) -> (r: Option<usize>)
        ensures
            match r {
                Some(i) => i < self.buffers@.len() && i == spec_buf_idx(
                    self.buffers@,
                    node as int,
                    port@,
                ) && self.buffers@[i as int].node == node && self.buffers@[i as int].port@
                    == port@,
                None => !spec_has_buf(self.buffers@, node as int, port@),
            },
            r is Some <==> spec_has_buf(self.buffers@, node as int, port@),
    {
        proof {
            lemma_buf_idx(self.buffers@, node as int, port@);
        }
        let n = self.buffers.len();
        let mut i: usize = 0;
        while i < n
            invariant
                n == self.buffers@.len(),
                i <= n,
                forall|j: int|
                    0 <= j < i ==> !((#[trigger] self.buffers@[j]).node == node
                        && self.buffers@[j].port@ == port@),
            decreases n - i,
        {
            if self.buffers[i].node == node && self.buffers[i].port == *port {
                proof {
                    lemma_buf_idx_at(self.buffers@, node as int, port@, i as int);
                }
                return Some(i);
            }
            i = i + 1;
        }
        None
    }
}

/// A directed connection from a producer output to a consumer input.
#[derive(Debug)]
pub struct Edge {
    pub from_node: usize,
    pub from_port: String,
    pub to_node: usize,
    pub to_port: String,
}

/// Errors of the router.
#[derive(Clone, Copy, PartialEq, Eq, Structural, Debug)]
pub enum RouterError {
    /// Delivery addressed a `(node, port)` with no buffer.
    UnknownPort,
}

/// Whether delivering `p` to a buffer at bracket depth `depth` latches the
/// invocation: hard errors, a close with no bracket open, `Done` with
/// brackets open, or nesting beyond what the counter can track.
pub open spec fn delivery_latches(depth: u64, p: PacketView) -> bool {
    ||| packet_fatal(p)
    ||| (p is CloseBracket && depth == 0)
    ||| (p is Done && depth != 0)
    ||| (p is OpenBracket && depth == 0xffff_ffff_ffff_ffff)
}

/// The bracket depth after one more packet.
pub open spec fn next_depth(depth: u64, p: PacketView) -> u64 {
    match p {
        PacketView::OpenBracket => if depth < 0xffff_ffff_ffff_ffff {
            (depth + 1) as u64
        } else {
            depth
        },
        PacketView::CloseBracket => if depth > 0 {
            (depth - 1) as u64
        } else {
            0
        },
        _ => depth,
    }
}

proof fn lemma_bracket_push(s: Seq<PacketView>, p: PacketView)
    requires
        bracket_ok(s),
        bracket_depth(s) + depth_delta(p) >= 0,
    ensures
        bracket_ok(s.push(p)),
        bracket_depth(s.push(p)) == bracket_depth(s) + depth_delta(p),
{
    assert(s.push(p).drop_last() =~= s);
    assert forall|i: int| 0 <= i <= s.push(p).len() implies bracket_depth(
        #[trigger] s.push(p).subrange(0, i),
    ) >= 0 by {
        if i <= s.len() {
            assert(s.push(p).subrange(0, i) =~= s.subrange(0, i));
        } else {
            assert(s.push(p).subrange(0, i) =~= s.push(p));
        }
    }
}

impl RouterState {
    /// Appends a packet to the destination FIFO; a destination at
    /// `SCHEMATIC_OUTPUT` goes to the invocation's external output channel
    /// instead. A hard error, a close with no open bracket, or a `Done` with
    /// brackets still open latches the invocation's error.
    pub fn deliver(&mut self, node: usize, port: &String, packet: Packet) -> (r: Result<
        (),
        RouterError,
    >)
        requires
            old(self).wf(),
        ensures
            final(self).wf(),
            final(self).buffers@.len() == old(self).buffers@.len(),
            node == SCHEMATIC_OUTPUT ==> {
                &&& r is Ok
                &&& final(self).buffers@ == old(self).buffers@
                &&& final(self).output@.len() == old(self).output@.len() + 1
                &&& final(self).output@.last()@ == (port@, packet@)
                &&& forall|j: int|
                    0 <= j < old(self).output@.len() ==> final(self).output@[j] == old(
                        self,
                    ).output@[j]
                &&& final(self).error_latch == (old(self).error_latch || packet_fatal(packet@))
            },
            node != SCHEMATIC_OUTPUT ==> final(self).output == old(self).output,
            node != SCHEMATIC_OUTPUT && !spec_has_buf(old(self).buffers@, node as int, port@)
                ==> r == Err::<(), RouterError>(RouterError::UnknownPort) && *final(self)
                == *old(self),
            node != SCHEMATIC_OUTPUT && spec_has_buf(old(self).buffers@, node as int, port@)
                ==> r is Ok && {
                let i = spec_buf_idx(old(self).buffers@, node as int, port@);
                let ob = old(self).buffers@[i];
                let nb = final(self).buffers@[i];
                &&& ob.done ==> *final(self) == *old(self)
                &&& !ob.done ==> {
                    &&& forall|j: int|
                        0 <= j < old(self).buffers@.len() && j != i ==> final(self).buffers@[j]
                            == old(self).buffers@[j]
                    &&& nb.node == ob.node
                    &&& nb.port == ob.port
                    &&& nb.has_default == ob.has_default
                    &&& nb.default_data == ob.default_data
                    &&& nb.consumed == ob.consumed
                    &&& nb.delivered@ == ob.delivered@.push(packet@)
                    &&& queue_view(nb.queue@) == queue_view(ob.queue@).push(packet@)
                    &&& nb.done == (packet@ is Done)
                    &&& nb.depth == next_depth(ob.depth, packet@)
                    &&& final(self).error_latch == (old(self).error_latch || delivery_latches(
                        ob.depth,
                        packet@,
                    ))
                }
            },
    {
        if node == SCHEMATIC_OUTPUT {
            if packet.is_fatal() && !self.error_latch {
                self.error_latch = true;
                self.error_msg = String::from_str("hard error on output");
            }
            self.output.push(PortPacket { port: port.clone(), packet });
            return Ok(());
        }
        let i = match self.find_buffer(node, port) {
            Some(i) => i,
            None => {
                return Err(RouterError::UnknownPort);
            },
        };
        if self.buffers[i].done {
            return Ok(());
        }
        let mut buf = self.buffers.remove(i);
        let ghost ob = buf;
        if packet.is_fatal() {
            self.error_latch = true;
            self.error_msg = String::from_str("hard error delivered");
        }
        match &packet {
            Packet::OpenBracket => {
                if buf.depth < 0xffff_ffff_ffff_ffff {
                    buf.depth = buf.depth + 1;
                } else {
                    self.error_latch = true;
                    self.error_msg = String::from_str("bracket depth overflow");
                }
            },
            Packet::CloseBracket => {
                if buf.depth == 0 {
                    self.error_latch = true;
                    self.error_msg = String::from_str("bracket mismatch");
                } else {
                    buf.depth = buf.depth - 1;
                }
            },
            Packet::Done => {
                if buf.depth != 0 {
                    self.error_latch = true;
                    self.error_msg = String::from_str("bracket mismatch");
                }
                buf.done = true;
            },
            _ => {},
        }
        proof {
            buf.delivered@ = ob.delivered@.push(packet@);
        }
        buf.queue.push(packet);
        self.buffers.insert(i, buf);
        proof {
            assert(self.buffers@ =~= old(self).buffers@.update(
                i as int,
                self.buffers@[i as int],
            ));
            let nb = self.buffers@[i as int];
            assert(queue_view(nb.queue@) =~= queue_view(ob.queue@).push(nb.queue@.last()@));
            if !self.error_latch {
                assert(ob.wf());
                lemma_bracket_push(ob.delivered@, nb.queue@.last()@);
                assert(nb.consumed@ + queue_view(nb.queue@) =~= nb.delivered@);
                assert(nb.wf());
                assert forall|j: int| 0 <= j < self.buffers@.len() implies (
                #[trigger] self.buffers@[j]).wf() by {
                    if j != i {
                        assert(self.buffers@[j] == old(self).buffers@[j]);
                    }
                }
            }
        }
        Ok(())
    }

    /// Takes the oldest pending packet of buffer `i`, or synthesizes the
    /// declared default when the queue is empty, or reports that nothing can
    /// be drained.
    pub fn drain_one(&mut self, i: usize) -> (r: Option<Packet>)
        requires
            old(self).wf(),
            i < old(self).buffers@.len(),
        ensures
            final(self).wf(),
            final(self).buffers@.len() == old(self).buffers@.len(),
            final(self).output == old(self).output,
            final(self).error_latch == old(self).error_latch,
            forall|j: int|
                0 <= j < old(self).buffers@.len() && j != i ==> final(self).buffers@[j] == old(
                    self,
                ).buffers@[j],
            old(self).buffers@[i as int].queue@.len() > 0 ==> {
                let ob = old(self).buffers@[i as int];
                let nb = final(self).buffers@[i as int];
                &&& r matches Some(p) && p@ == ob.queue@[0]@
                &&& queue_view(nb.queue@) == queue_view(ob.queue@).drop_first()
                &&& nb.consumed@ == ob.consumed@.push(ob.queue@[0]@)
                &&& nb.delivered == ob.delivered
                &&& nb.node == ob.node
                &&& nb.port == ob.port
                &&& nb.depth == ob.depth
                &&& nb.done == ob.done
                &&& nb.has_default == ob.has_default
                &&& nb.default_data == ob.default_data
            },
            old(self).buffers@[i as int].queue@.len() == 0 ==> final(self).buffers@ == old(
                self,
            ).buffers@ && {
                let ob = old(self).buffers@[i as int];
                if ob.has_default {
                    r matches Some(p) && p@ == PacketView::Data(ob.default_data@)
                } else {
                    r is None
                }
            },
    {
        let empty = self.buffers[i].queue.len() == 0;
        if empty {
            if self.buffers[i].has_default {
                let d = self.buffers[i].default_data.clone();
                return Some(Packet::Data(d));
            }
            return None;
        }
        let mut buf = self.buffers.remove(i);
        let ghost ob = buf;
        let p = buf.queue.remove(0);
        proof {
            buf.consumed@ = ob.consumed@.push(p@);
        }
        let out = p.duplicate();
        self.buffers.insert(i, buf);
        proof {
            assert(self.buffers@ =~= old(self).buffers@.update(
                i as int,
                self.buffers@[i as int],
            ));
            let nb = self.buffers@[i as int];
            assert(queue_view(nb.queue@) =~= queue_view(ob.queue@).drop_first());
            if !self.error_latch {
                assert(ob.wf());
                assert(queue_view(ob.queue@)[0] == ob.queue@[0]@);
                assert(nb.consumed@ + queue_view(nb.queue@) =~= ob.consumed@ + queue_view(
                    ob.queue@,
                ));
                assert(nb.wf());
                assert forall|j: int| 0 <= j < self.buffers@.len() implies (
                #[trigger] self.buffers@[j]).wf() by {
                    if j != i {
                        assert(self.buffers@[j] == old(self).buffers@[j]);
                    }
                }
            }
        }
        Some(out)
    }

    /// Fans a producer packet out to every edge with a matching source,
    /// cloning the packet by value for each consumer; edges into
    /// `SCHEMATIC_OUTPUT` go to the external output channel.
    #[verifier::loop_isolation(false)]
    pub fn route(&mut self, edges: &Vec<Edge>, from_node: usize, from_port: &String, packet: &Packet) -> (r: Result<(), RouterError>)
        requires
            old(self).wf(),
            forall|k: int|
                0 <= k < edges@.len() && (#[trigger] edges@[k]).from_node == from_node
                    && edges@[k].from_port@ == from_port@ && edges@[k].to_node
                    != SCHEMATIC_OUTPUT ==> spec_has_buf(
                    old(self).buffers@,
                    edges@[k].to_node as int,
                    edges@[k].to_port@,
                ),
        ensures
            final(self).wf(),
            r is Ok,
            final(self).buffers@.len() == old(self).buffers@.len(),
            old(self).error_latch ==> final(self).error_latch,
            (packet@ is Data || packet@ is Exception) ==> {
                final(self).error_latch == old(self).error_latch
            },
            forall|j: int|
                0 <= j < old(self).buffers@.len() ==> {
                    let ob = old(self).buffers@[j];
                    let nb = #[trigger] final(self).buffers@[j];
                    &&& nb.node == ob.node
                    &&& nb.port == ob.port
                },
            forall|j: int|
                0 <= j < old(self).output@.len() ==> final(self).output@[j] == old(
                    self,
                ).output@[j],
            forall|k: int|
                old(self).output@.len() <= k < final(self).output@.len()
                    ==> (#[trigger] final(self).output@[k]).packet@ == packet@,
            old(self).output@.len() <= final(self).output@.len(),
            forall|k: int|
                0 <= k < edges@.len() && (#[trigger] edges@[k]).from_node == from_node
                    && edges@[k].from_port@ == from_port@ && edges@[k].to_node
                    == SCHEMATIC_OUTPUT ==> output_carries(
                    final(self).output@,
                    edges@[k].to_port@,
                    packet@,
                ),
    {
        let n = edges.len();
        let mut k: usize = 0;
        while k < n
            invariant
                old(self).wf(),
                self.wf(),
                n == edges@.len(),
                k <= n,
                self.buffers@.len() == old(self).buffers@.len(),
                old(self).error_latch ==> self.error_latch,
                (packet@ is Data || packet@ is Exception) ==> self.error_latch == old(
                    self,
                ).error_latch,
                forall|j: int|
                    0 <= j < old(self).buffers@.len() ==> {
                        let ob = old(self).buffers@[j];
                        let nb = #[trigger] self.buffers@[j];
                        &&& nb.node == ob.node
                        &&& nb.port == ob.port
                    },
                old(self).output@.len() <= self.output@.len(),
                forall|j: int|
                    0 <= j < old(self).output@.len() ==> self.output@[j] == old(
                        self,
                    ).output@[j],
                forall|m: int|
                    old(self).output@.len() <= m < self.output@.len() ==> (#[trigger] self
                        .output@[m]).packet@ == packet@,
                forall|kk: int|
                    0 <= kk < k && (#[trigger] edges@[kk]).from_node == from_node
                        && edges@[kk].from_port@ == from_port@ && edges@[kk].to_node
                        == SCHEMATIC_OUTPUT ==> output_carries(
                        self.output@,
                        edges@[kk].to_port@,
                        packet@,
                    ),
            decreases n - k,
        {
            let matches_src = edges[k].from_node == from_node && edges[k].from_port == *from_port;
            if matches_src {
                let copy = packet.duplicate();
                proof {
                    let e = edges@[k as int];
                    if e.to_node != SCHEMATIC_OUTPUT {
                        assert(spec_has_buf(old(self).buffers@, e.to_node as int, e.to_port@));
                        let w = choose|w: int|
                            0 <= w < old(self).buffers@.len() && old(self).buffers@[w].node
                                == e.to_node && (#[trigger] old(self).buffers@[w].port)@
                                == e.to_port@;
                        assert(self.buffers@[w].node == e.to_node);
                        assert(self.buffers@[w].port@ == e.to_port@);
                        assert(spec_has_buf(self.buffers@, e.to_node as int, e.to_port@));
                        lemma_buf_idx(self.buffers@, e.to_node as int, e.to_port@);
                    }
                }
                let ghost pre = *self;
                let res = self.deliver(edges[k].to_node, &edges[k].to_port, copy);
                proof {
                    assert(res is Ok);
                    if edges@[k as int].to_node != SCHEMATIC_OUTPUT {
                        lemma_buf_idx(pre.buffers@, edges@[k as int].to_node as int, edges@[
                            k as int].to_port@);
                    }
                    assert forall|j: int| 0 <= j < old(self).buffers@.len() implies {
                        let ob2 = old(self).buffers@[j];
                        let nb2 = #[trigger] self.buffers@[j];
                        nb2.node == ob2.node && nb2.port == ob2.port
                    } by {
                        assert(pre.buffers@[j].node == old(self).buffers@[j].node);
                        assert(pre.buffers@[j].port == old(self).buffers@[j].port);
                    }
                    assert forall|kk: int|
                        0 <= kk < k + 1 && (#[trigger] edges@[kk]).from_node == from_node
                            && edges@[kk].from_port@ == from_port@ && edges@[kk].to_node
                            == SCHEMATIC_OUTPUT implies output_carries(
                        self.output@,
                        edges@[kk].to_port@,
                        packet@,
                    ) by {
                        if kk < k as int {
                            let w = choose|w: int|
                                0 <= w < pre.output@.len() && (#[trigger] pre.output@[w])@ == (
                                edges@[kk].to_port@,
                                packet@,
                            );
                            assert(self.output@[w] == pre.output@[w]);
                        } else {
                            let last = self.output@.len() - 1;
                            assert(self.output@[last]@ == (edges@[kk].to_port@, packet@));
                        }
                    }
                }
            }
            k = k + 1;
        }
        Ok(())
    }
}

/// Whether the external output channel carries the given packet on the
/// given port.
pub open spec fn output_carries(out: Seq<PortPacket>, port: Seq<char>, p: PacketView) -> bool {
    exists|w: int| 0 <= w < out.len() && (#[trigger] out[w])@ == (port, p)
}

/// Number of opening bracket signals in a port's traffic.
pub open spec fn open_count(s: Seq<PacketView>) -> int
    decreases s.len(),
{
    if s.len() == 0 {
        0
    } else {
        open_count(s.drop_last()) + if s.last() is OpenBracket {
            1int
        } else {
            0int
        }
    }
}

/// Number of closing bracket signals in a port's traffic.
pub open spec fn close_count(s: Seq<PacketView>) -> int
    decreases s.len(),
{
    if s.len() == 0 {
        0
    } else {
        close_count(s.drop_last()) + if s.last() is CloseBracket {
            1int
        } else {
            0int
        }
    }
}

/// The bracket depth is the number of opens minus the number of closes.
pub proof fn lemma_depth_is_count_difference(s: Seq<PacketView>)
    ensures
        bracket_depth(s) == open_count(s) - close_count(s),
    decreases s.len(),
{
    if s.len() > 0 {
        lemma_depth_is_count_difference(s.drop_last());
    }
}

/// Per-edge order: on every input buffer of an unlatched invocation, the
/// packets the consumer has observed are exactly the packets the producer
/// delivered, in delivery order, up to those still queued.
pub proof fn lemma_per_edge_order(s: &RouterState, i: int)
    requires
        s.wf(),
        !s.error_latch,
        0 <= i < s.buffers@.len(),
    ensures
        s.buffers@[i].consumed@.len() <= s.buffers@[i].delivered@.len(),
        s.buffers@[i].consumed@ == s.buffers@[i].delivered@.take(
            s.buffers@[i].consumed@.len() as int,
        ),
{
    let b = s.buffers@[i];
    assert(b.wf());
    assert(b.consumed@ =~= b.delivered@.take(b.consumed@.len() as int));
}

/// Bracket balance: on every port of an unlatched invocation whose producer
/// has signalled `Done`, the count of `Open` signals equals the count of
/// `Close` signals, and no `Close` ever ran while the depth was zero.
pub proof fn lemma_bracket_balance(s: &RouterState, i: int)
    requires
        s.wf(),
        !s.error_latch,
        0 <= i < s.buffers@.len(),
        s.buffers@[i].done,
    ensures
        open_count(s.buffers@[i].delivered@) == close_count(s.buffers@[i].delivered@),
        bracket_ok(s.buffers@[i].delivered@),
{
    let b = s.buffers@[i];
    assert(b.wf());
    lemma_depth_is_count_difference(b.delivered@);
}

pub proof fn lemma_buf_idx_at(bufs: Seq<PortBuffer>, node: int, port: Seq<char>, i: int)
    requires
        0 <= i < bufs.len(),
        bufs[i].node == node,
        bufs[i].port@ == port,
        forall|j: int|
            0 <= j < i ==> !((#[trigger] bufs[j]).node == node && bufs[j].port@ == port),
    ensures
        spec_buf_idx(bufs, node, port) == i,
    decreases bufs.len(),
{
    if i > 0 {
        assert forall|j: int|
            0 <= j < i - 1 implies !((#[trigger] bufs.drop_first()[j]).node == node
            && bufs.drop_first()[j].port@ == port) by {
            assert(bufs.drop_first()[j] == bufs[j + 1]);
        }
        assert(bufs.drop_first()[i - 1] == bufs[i]);
        lemma_buf_idx_at(bufs.drop_first(), node, port, i - 1);
    }
}

} // verus!
