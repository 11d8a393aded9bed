//! Which of the nodes under `/dev` are cameras.
use vstd::prelude::*;
use vstd::slice::*;
use vstd::string::*;

use crate::capture::open::CAP_VIDEO_CAPTURE;
use crate::text;

verus! {

/// A capture device, as `/dev/video*` lists it.
#[derive(Debug, Clone, PartialEq, Eq)]
pub struct DeviceInfo {
    pub path: String,
    /// The driver's card name, e.g. "BRIO 4K Stream Edition".
    pub name: String,
    pub driver: String,
    pub bus: String,
}

/// What `VIDIOC_QUERYCAP` says of a node. The texts end at their first zero byte.
#[derive(Debug, Clone)]
pub struct NodeCapabilities {
    pub card: Vec<u8>,
    pub driver: Vec<u8>,
    pub bus_info: Vec<u8>,
    /// What this very node can do, as opposed to the whole device.
    pub device_caps: u32,
}

/// A node that was asked what it is; no answer where it could not be opened.
#[derive(Debug, Clone)]
pub struct Node {
    pub path: String,
    pub answer: Option<NodeCapabilities>,
}

/// The bytes before the first zero.
pub open spec fn until_zero(bytes: Seq<u8>) -> Seq<u8>
    decreases bytes.len(),
{
    if bytes.len() == 0 || bytes[0] == 0 {
        Seq::empty()
    } else {
        seq![bytes[0]] + until_zero(bytes.skip(1))
    }
}

proof fn lemma_until_zero(bytes: Seq<u8>, end: int)
    requires
        0 <= end <= bytes.len(),
        forall|i: int| 0 <= i < end ==> bytes[i] != 0,
        end < bytes.len() ==> bytes[end] == 0,
    ensures
        until_zero(bytes) == bytes.take(end),
    decreases bytes.len(),
{
    if end == 0 {
        assert(bytes.take(0) =~= Seq::empty());
    } else {
        let rest = bytes.skip(1);
        assert forall|i: int| 0 <= i < end - 1 implies rest[i] != 0 by {
            assert(rest[i] == bytes[i + 1]);
        }
        lemma_until_zero(rest, end - 1);
        assert(bytes.take(end) =~= seq![bytes[0]] + rest.take(end - 1));
    }
}

/// The text up to the first zero byte.
pub fn cstr(bytes: &[u8]) -> (r: String)
    ensures
        r@ == text::utf8_lossy(until_zero(bytes@)),
{
    let mut end: usize = 0;
    while end < bytes.len() && bytes[end] != 0
        invariant
            end <= bytes.len(),
            forall|i: int| 0 <= i < end ==> bytes[i] != 0,
        decreases bytes.len() - end,
    {
        end = end + 1;
    }
    proof {
        lemma_until_zero(bytes@, end as int);
        assert(bytes@.subrange(0, end as int) =~= bytes@.take(end as int));
    }
    text::from_utf8_lossy(slice_subrange(bytes, 0, end))
}

/// `info` is what a node at `path` says of itself.
pub open spec fn describes(info: DeviceInfo, path: Seq<char>, caps: NodeCapabilities) -> bool {
    &&& info.path@ == path
    &&& info.name@ == text::utf8_lossy(until_zero(caps.card@))
    &&& info.driver@ == text::utf8_lossy(until_zero(caps.driver@))
    &&& info.bus@ == text::utf8_lossy(until_zero(caps.bus_info@))
}

/// A node that can itself capture video. A camera's metadata node cannot.
pub open spec fn captures(caps: NodeCapabilities) -> bool {
    caps.device_caps & CAP_VIDEO_CAPTURE != 0
}

/// What a node is, if it captures video.
pub fn probe(path: &str, caps: &NodeCapabilities) -> (r: Option<DeviceInfo>)
    ensures
        r is Some <==> captures(*caps),
        r matches Some(info) ==> describes(info, path@, *caps),
{
    if caps.device_caps & CAP_VIDEO_CAPTURE == 0 {
        return None;
    }
    Some(
        DeviceInfo {
            path: path.to_owned(),
            name: cstr(caps.card.as_slice()),
            driver: cstr(caps.driver.as_slice()),
            bus: cstr(caps.bus_info.as_slice()),
        },
    )
}

/// The nodes that answered and capture video.
pub open spec fn cameras(nodes: Seq<Node>) -> Seq<Node> {
    nodes.filter(|n: Node| n.answer matches Some(caps) && captures(caps))
}

/// Every node that can capture video, in order.
pub fn devices(nodes: &Vec<Node>) -> (r: Vec<DeviceInfo>)
    ensures
        r.len() == cameras(nodes@).len(),
        forall|i: int|
            0 <= i < r.len() ==> describes(
                #[trigger] r[i],
                cameras(nodes@)[i].path@,
                cameras(nodes@)[i].answer->0,
            ),
{
    let mut out: Vec<DeviceInfo> = Vec::new();
    let mut i: usize = 0;
    proof {
        reveal(Seq::filter);
        assert(cameras(nodes@.take(0)) =~= Seq::empty());
    }
    while i < nodes.len()
        invariant
            i <= nodes.len(),
            out.len() == cameras(nodes@.take(i as int)).len(),
            forall|k: int|
                0 <= k < out.len() ==> describes(
                    #[trigger] out[k],
                    cameras(nodes@.take(i as int))[k].path@,
                    cameras(nodes@.take(i as int))[k].answer->0,
                ),
        decreases nodes.len() - i,
    {
        let ghost before = out@;
        proof {
            reveal(Seq::filter);
            assert(nodes@.take(i + 1).drop_last() =~= nodes@.take(i as int));
        }
        if let Some(caps) = &nodes[i].answer {
            if let Some(info) = probe(nodes[i].path.as_str(), caps) {
                out.push(info);
            }
        }
        proof {
            assert forall|k: int| 0 <= k < out.len() implies describes(
                #[trigger] out[k],
                cameras(nodes@.take(i + 1))[k].path@,
                cameras(nodes@.take(i + 1))[k].answer->0,
            ) by {
                if k < before.len() {
                    assert(out[k] == before[k]);
                }
            }
        }
        i = i + 1;
    }
    proof {
        assert(nodes@.take(nodes.len() as int) =~= nodes@);
    }
    out
}

/// The name begins with "video".
pub open spec fn is_video(name: Seq<char>) -> bool {
    seq!['v', 'i', 'd', 'e', 'o'].is_prefix_of(name)
}

/// The name without every "video" that it begins with.
pub open spec fn after_video(name: Seq<char>) -> Seq<char>
    decreases name.len(),
{
    if is_video(name) {
        after_video(name.skip(5))
    } else {
        name
    }
}

/// The number of a node; those without one come last.
pub open spec fn node_number(name: Seq<char>) -> u32 {
    match text::number(after_video(name), 10) {
        Some(n) => n,
        None => u32::MAX,
    }
}

/// The names as texts.
pub open spec fn texts(names: Seq<String>) -> Seq<Seq<char>> {
    names.map_values(|s: String| s@)
}

/// The video nodes with this number, in order.
pub open spec fn numbered(names: Seq<Seq<char>>, number: u32) -> Seq<Seq<char>> {
    names.filter(|n: Seq<char>| is_video(n) && node_number(n) == number)
}

fn begins_with_video(name: &Vec<char>, from: usize) -> (r: bool)
    requires
        from <= name.len(),
    ensures
        r == is_video(name@.skip(from as int)),
{
    let ghost rest = name@.skip(from as int);
    if name.len() - from < 5 {
        return false;
    }
    let same = name[from] == 'v' && name[from + 1] == 'i' && name[from + 2] == 'd' && name[from + 3]
        == 'e' && name[from + 4] == 'o';
    proof {
        let word = seq!['v', 'i', 'd', 'e', 'o'];
        let head = rest.subrange(0, 5);
        assert(head[0] == name[from as int]);
        assert(head[1] == name[from + 1]);
        assert(head[2] == name[from + 2]);
        assert(head[3] == name[from + 3]);
        assert(head[4] == name[from + 4]);
        if same {
            assert(head =~= word);
        }
    }
    same
}

fn number_of(name: &Vec<char>) -> (r: u32)
    ensures
        r == node_number(name@),
{
    proof {
        assert(name@.skip(0) =~= name@);
    }
    let mut from: usize = 0;
    while begins_with_video(name, from)
        invariant
            from <= name.len(),
            after_video(name@.skip(from as int)) == after_video(name@),
        decreases name.len() - from,
    {
        proof {
            assert(name@.skip(from as int).skip(5) =~= name@.skip(from + 5));
        }
        from = from + 5;
    }
    match text::parse(name, from, 10) {
        Some(n) => n,
        None => u32::MAX,
    }
}

proof fn lemma_filter_insert(s: Seq<Seq<char>>, at: int, a: Seq<char>, number: u32)
    requires
        0 <= at <= s.len(),
        is_video(a),
        forall|i: int| at <= i < s.len() ==> node_number(#[trigger] s[i]) > node_number(a),
    ensures
        numbered(s.insert(at, a), number) == if node_number(a) == number {
            numbered(s, number).push(a)
        } else {
            numbered(s, number)
        },
{
    let keep = |n: Seq<char>| is_video(n) && node_number(n) == number;
    let (head, tail) = (s.take(at), s.skip(at));
    assert(s =~= head + tail);
    assert(s.insert(at, a) =~= head.push(a) + tail);
    Seq::filter_distributes_over_add(head, tail, keep);
    Seq::filter_distributes_over_add(head.push(a), tail, keep);
    reveal(Seq::filter);
    assert(head.push(a).drop_last() =~= head);
    if node_number(a) == number {
        lemma_filter_none(tail, number);
        assert(tail.filter(keep) =~= Seq::empty());
        assert(s.filter(keep) =~= head.filter(keep));
    }
}

proof fn lemma_filter_none(s: Seq<Seq<char>>, number: u32)
    requires
        forall|i: int| 0 <= i < s.len() ==> node_number(#[trigger] s[i]) != number,
    ensures
        numbered(s, number).len() == 0,
    decreases s.len(),
{
    reveal(Seq::filter);
    if s.len() > 0 {
        assert forall|i: int| 0 <= i < s.drop_last().len() implies node_number(
            #[trigger] s.drop_last()[i],
        ) != number by {
            assert(s.drop_last()[i] == s[i]);
        }
        lemma_filter_none(s.drop_last(), number);
        assert(node_number(s[s.len() - 1]) != number);
    }
}

/// The names of the video nodes among these, by number; those of one number keep their order.
pub fn video_nodes(names: &Vec<String>) -> (r: Vec<String>)
    ensures
        forall|i: int| 0 <= i < r.len() ==> is_video((#[trigger] r[i])@),
        forall|i: int, j: int|
            0 <= i <= j < r.len() ==> node_number((#[trigger] r[i])@) <= node_number(
                (#[trigger] r[j])@,
            ),
        forall|n: u32| #[trigger] numbered(texts(r@), n) == numbered(texts(names@), n),
{
    let mut out: Vec<String> = Vec::new();
    let mut numbers: Vec<u32> = Vec::new();
    let mut i: usize = 0;
    proof {
        assert(texts(names@.take(0)) =~= texts(out@));
    }
    while i < names.len()
        invariant
            i <= names.len(),
            out.len() == numbers.len(),
            forall|k: int| 0 <= k < out.len() ==> is_video((#[trigger] out[k])@),
            forall|k: int| 0 <= k < out.len() ==> numbers[k] == node_number((#[trigger] out[k])@),
            forall|j: int, k: int| 0 <= j <= k < numbers.len() ==> numbers[j] <= numbers[k],
            forall|n: u32| #[trigger]
                numbered(texts(out@), n) == numbered(texts(names@.take(i as int)), n),
        decreases names.len() - i,
    {
        let name = text::characters(names[i].as_str());
        let ghost (x, y) = (texts(names@.take(i as int)), texts(names@.take(i + 1)));
        proof {
            reveal(Seq::filter);
            assert(y.drop_last() =~= x);
            assert(y.last() == name@);
            assert(name@.skip(0) =~= name@);
        }
        if begins_with_video(&name, 0) {
            let number: u32 = number_of(&name);
            let mut at: usize = numbers.len();
            while at > 0 && numbers[at - 1] > number
                invariant
                    at <= numbers.len(),
                    forall|k: int| at <= k < numbers.len() ==> numbers[k] > number,
                decreases at,
            {
                at = at - 1;
            }
            let ghost (old_out, old_numbers) = (out@, numbers@);
            out.insert(at, names[i].clone());
            numbers.insert(at, number);
            proof {
                assert(texts(out@) =~= texts(old_out).insert(at as int, name@));
                assert forall|n: u32| #[trigger] numbered(texts(out@), n) == numbered(y, n) by {
                    assert forall|k: int| at <= k < texts(old_out).len() implies node_number(
                        #[trigger] texts(old_out)[k],
                    ) > node_number(name@) by {
                        assert(old_numbers[k] == node_number(old_out[k]@));
                    }
                    lemma_filter_insert(texts(old_out), at as int, name@, n);
                    assert(numbered(texts(old_out), n) == numbered(x, n));
                }
                assert forall|k: int| 0 <= k < out.len() implies is_video((#[trigger] out[k])@)
                    && numbers[k] == node_number(out[k]@) by {
                    if k < at {
                        assert(out[k] == old_out[k]);
                    } else if k > at {
                        assert(out[k] == old_out[k - 1]);
                        assert(numbers[k] == old_numbers[k - 1]);
                    }
                }
                assert forall|j: int, k: int| 0 <= j <= k < numbers.len() implies numbers[j]
                    <= numbers[k] by {
                    if j != at && k != at {
                        assert(old_numbers[if j < at { j } else { j - 1 }] <= old_numbers[if k < at {
                            k
                        } else {
                            k - 1
                        }]);
                    } else if j != at {
                        if at > 0 {
                            assert(old_numbers[j] <= old_numbers[at - 1]);
                        }
                    }
                }
            }
        } else {
            proof {
                assert forall|n: u32| #[trigger] numbered(texts(out@), n) == numbered(y, n) by {
                    assert(numbered(texts(out@), n) == numbered(x, n));
                }
            }
        }
        i = i + 1;
    }
    proof {
        assert(names@.take(names.len() as int) =~= names@);
    }
    out
}

/// A text ends at its first zero byte: what is read of it are the bytes before, none of them zero.
pub proof fn a_text_ends_at_its_first_zero(bytes: Seq<u8>, end: int)
    requires
        0 <= end <= bytes.len(),
        forall|i: int| 0 <= i < end ==> bytes[i] != 0,
        end < bytes.len() ==> bytes[end] == 0,
    ensures
        until_zero(bytes) == bytes.take(end),
        until_zero(bytes).len() == end,
{
    lemma_until_zero(bytes, end);
}

/// A node is a camera if the lowest bit of what it can do itself is set.
pub proof fn a_camera_captures_video(caps: NodeCapabilities)
    ensures
        captures(caps) <==> caps.device_caps & 1 == 1,
{
    let x = caps.device_caps;
    assert(x & 1 == 0 || x & 1 == 1) by (bit_vector);
}

/// Every node that answered and captures video is listed, in order, and no other one is.
pub proof fn cameras_are_listed(nodes: Seq<Node>, node: Node)
    ensures
        cameras(nodes).contains(node) <==> nodes.contains(node) && node.answer is Some && (
        node.answer->0).device_caps & 1 == 1,
        cameras(nodes.push(node)) == if node.answer is Some && (node.answer->0).device_caps & 1
            == 1 {
            cameras(nodes).push(node)
        } else {
            cameras(nodes)
        },
    decreases nodes.len(),
{
    reveal(Seq::filter);
    if let Some(caps) = node.answer {
        a_camera_captures_video(caps);
    }
    assert(nodes.push(node).drop_last() =~= nodes);
    if nodes.len() > 0 {
        let rest = nodes.drop_last();
        cameras_are_listed(rest, node);
        cameras_are_listed(rest, nodes.last());
        assert(nodes =~= rest.push(nodes.last()));
        if rest.contains(node) {
            let i = choose|i: int| 0 <= i < rest.len() && rest[i] == node;
            assert(nodes[i] == node);
        }
        if cameras(rest).contains(node) {
            let i = choose|i: int| 0 <= i < cameras(rest).len() && cameras(rest)[i] == node;
            assert(cameras(nodes)[i] == node);
        }
        if node == nodes.last() && node.answer is Some && (node.answer->0).device_caps & 1 == 1 {
            assert(cameras(nodes)[cameras(nodes).len() - 1] == node);
        }
    }
}

/// A node is called "video" and its number, by which it is sorted; one without a number comes last.
pub proof fn a_node_is_sorted_by_its_number(n: u32, name: Seq<char>)
    ensures
        is_video(seq!['v', 'i', 'd', 'e', 'o'] + text::decimal(n as nat)),
        node_number(seq!['v', 'i', 'd', 'e', 'o'] + text::decimal(n as nat)) == n,
        !is_video(name) && text::number(name, 10) is None ==> node_number(
            seq!['v', 'i', 'd', 'e', 'o'] + name,
        ) == u32::MAX,
        is_video(name) <==> name.len() >= 5 && name[0] == 'v' && name[1] == 'i' && name[2] == 'd'
            && name[3] == 'e' && name[4] == 'o',
{
    let word = seq!['v', 'i', 'd', 'e', 'o'];
    let d = text::decimal(n as nat);
    text::a_decimal_reads_back(n as nat);
    lemma_is_video(word + d);
    lemma_is_video(d);
    lemma_is_video(name);
    lemma_is_video(word + name);
    assert((word + d).skip(5) =~= d);
    assert((word + name).skip(5) =~= name);
    assert(after_video(word + d) == after_video(d));
    assert(after_video(word + name) == after_video(name));
    assert(after_video(d) == d);
}

proof fn lemma_is_video(name: Seq<char>)
    ensures
        is_video(name) <==> name.len() >= 5 && name[0] == 'v' && name[1] == 'i' && name[2] == 'd'
            && name[3] == 'e' && name[4] == 'o',
{
    let word = seq!['v', 'i', 'd', 'e', 'o'];
    if name.len() >= 5 {
        let head = name.subrange(0, 5);
        assert(head[0] == name[0] && head[1] == name[1] && head[2] == name[2] && head[3] == name[3]
            && head[4] == name[4]);
        if name[0] == 'v' && name[1] == 'i' && name[2] == 'd' && name[3] == 'e' && name[4] == 'o' {
            assert(head =~= word);
        }
    }
}

/// A camera is described by what its node says: its card, its driver and its bus, each up to the
/// first zero byte, and where it is found.
pub proof fn a_camera_is_described_by_its_node(
    info: DeviceInfo,
    path: Seq<char>,
    caps: NodeCapabilities,
    card: Seq<u8>,
    driver: Seq<u8>,
    bus: Seq<u8>,
    rest: (Seq<u8>, Seq<u8>, Seq<u8>),
)
    requires
        describes(info, path, caps),
        caps.card@ == card.push(0) + rest.0,
        caps.driver@ == driver.push(0) + rest.1,
        caps.bus_info@ == bus.push(0) + rest.2,
        !card.contains(0) && !driver.contains(0) && !bus.contains(0),
    ensures
        info.path@ == path,
        info.name@ == text::utf8_lossy(card),
        info.driver@ == text::utf8_lossy(driver),
        info.bus@ == text::utf8_lossy(bus),
{
    lemma_up_to_zero(card, rest.0);
    lemma_up_to_zero(driver, rest.1);
    lemma_up_to_zero(bus, rest.2);
}

proof fn lemma_up_to_zero(bytes: Seq<u8>, rest: Seq<u8>)
    requires
        !bytes.contains(0),
    ensures
        until_zero(bytes.push(0) + rest) == bytes,
{
    let all = bytes.push(0) + rest;
    let end = bytes.len() as int;
    assert forall|i: int| 0 <= i < end implies all[i] != 0 by {
        assert(all[i] == bytes[i]);
    }
    assert(all[end] == 0);
    lemma_until_zero(all, end);
    assert(all.take(end) =~= bytes);
}

} // verus!
