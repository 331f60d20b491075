//! The telemetry collector's logic: turn one broker-client statistics
//! snapshot into the list of gauge samples the metrics endpoint exposes.
//! Ten process-level gauges come first; each broker then contributes eight
//! state cells — value 1 exactly for the state the broker is in, 0 for the
//! other seven — and eight counter gauges.
use vstd::prelude::*;

use crate::util::clone_bytes;

verus! {

/// Per-broker figures from the client's statistics callback.
pub struct BrokerStats {
    pub name: Vec<u8>,
    pub nodeid: i64,
    pub nodename: Vec<u8>,
    pub state: Vec<u8>,
    pub outbuf_cnt: i64,
    pub outbuf_msg_cnt: i64,
    pub waitresp_cnt: i64,
    pub waitresp_msg_cnt: i64,
    pub tx: u64,
    pub txbytes: u64,
    pub rx: u64,
    pub rxbytes: u64,
}

/// One statistics snapshot, replaced wholesale on every callback.
pub struct StatsSnapshot {
    pub replyq: i64,
    pub msg_cnt: u64,
    pub tx: i64,
    pub tx_bytes: i64,
    pub rx: i64,
    pub rx_bytes: i64,
    pub txmsgs: i64,
    pub txmsg_bytes: i64,
    pub rxmsgs: i64,
    pub rxmsg_bytes: i64,
    pub brokers: Vec<BrokerStats>,
}

/// One gauge sample: its name, the broker label and state label where they
/// apply, and the value.
pub struct GaugeCell {
    pub name: Vec<u8>,
    pub broker: Option<Vec<u8>>,
    pub state: Option<Vec<u8>>,
    pub value: i128,
}

/// The eight broker states the client reports.
pub open spec fn spec_state_name(k: int) -> Seq<u8> {
    if k == 0 {
        seq![73u8, 78u8, 73u8, 84u8]  // INIT
    } else if k == 1 {
        seq![68u8, 79u8, 87u8, 78u8]  // DOWN
    } else if k == 2 {
        seq![67u8, 79u8, 78u8, 78u8, 69u8, 67u8, 84u8]  // CONNECT
    } else if k == 3 {
        seq![65u8, 85u8, 84u8, 72u8]  // AUTH
    } else if k == 4 {
        // APIVERSION_QUERY
        seq![
            65u8,
            80u8,
            73u8,
            86u8,
            69u8,
            82u8,
            83u8,
            73u8,
            79u8,
            78u8,
            95u8,
            81u8,
            85u8,
            69u8,
            82u8,
            89u8,
        ]
    } else if k == 5 {
        // AUTH_HANDSHAKE
        seq![65u8, 85u8, 84u8, 72u8, 95u8, 72u8, 65u8, 78u8, 68u8, 83u8, 72u8, 65u8, 75u8, 69u8]
    } else if k == 6 {
        seq![85u8, 80u8]  // UP
    } else {
        seq![85u8, 80u8, 68u8, 65u8, 84u8, 69u8]  // UPDATE
    }
}

/// The name of the broker-state gauge family.
pub open spec fn spec_state_gauge_name() -> Seq<u8> {
    seq![98u8, 114u8, 111u8, 107u8, 101u8, 114u8, 95u8, 115u8, 116u8, 97u8, 116u8, 101u8]  // broker_state
}

/// The k-th state cell of a broker is correct: named `broker_state`,
/// labelled with the state name and the broker, valued 1 exactly when the
/// broker is in that state.
pub open spec fn state_cell_ok(cell: GaugeCell, br: BrokerStats, k: int) -> bool {
    &&& cell.name@ == spec_state_gauge_name()
    &&& cell.value == (if br.state@ == spec_state_name(k) {
        1int
    } else {
        0int
    })
    &&& cell.state is Some
    &&& cell.state->0@ == spec_state_name(k)
    &&& cell.broker is Some
    &&& cell.broker->0@ == br.name@
}

/// The j-th per-broker counter gauge value, in exposition order.
pub open spec fn spec_broker_value(br: BrokerStats, j: int) -> int {
    if j == 0 {
        br.outbuf_cnt as int
    } else if j == 1 {
        br.outbuf_msg_cnt as int
    } else if j == 2 {
        br.waitresp_cnt as int
    } else if j == 3 {
        br.waitresp_msg_cnt as int
    } else if j == 4 {
        br.tx as int
    } else if j == 5 {
        br.txbytes as int
    } else if j == 6 {
        br.rx as int
    } else {
        br.rxbytes as int
    }
}

/// The name of the j-th per-broker counter gauge, in exposition order:
/// broker_outbufcnt, broker_outbufmsgcnt, broker_waitrespcnt,
/// broker_waitrespmsgcnt, broker_tx, broker_txbytes, broker_rx,
/// broker_rxbytes.
pub open spec fn spec_broker_gauge_name(j: int) -> Seq<u8> {
    let prefix = seq![98u8, 114u8, 111u8, 107u8, 101u8, 114u8, 95u8];  // broker_
    if j == 0 {
        prefix + seq![111u8, 117u8, 116u8, 98u8, 117u8, 102u8, 99u8, 110u8, 116u8]
    } else if j == 1 {
        prefix + seq![
            111u8,
            117u8,
            116u8,
            98u8,
            117u8,
            102u8,
            109u8,
            115u8,
            103u8,
            99u8,
            110u8,
            116u8,
        ]
    } else if j == 2 {
        prefix + seq![119u8, 97u8, 105u8, 116u8, 114u8, 101u8, 115u8, 112u8, 99u8, 110u8, 116u8]
    } else if j == 3 {
        prefix + seq![
            119u8,
            97u8,
            105u8,
            116u8,
            114u8,
            101u8,
            115u8,
            112u8,
            109u8,
            115u8,
            103u8,
            99u8,
            110u8,
            116u8,
        ]
    } else if j == 4 {
        prefix + seq![116u8, 120u8]
    } else if j == 5 {
        prefix + seq![116u8, 120u8, 98u8, 121u8, 116u8, 101u8, 115u8]
    } else if j == 6 {
        prefix + seq![114u8, 120u8]
    } else {
        prefix + seq![114u8, 120u8, 98u8, 121u8, 116u8, 101u8, 115u8]
    }
}

/// The j-th counter cell of a broker is correct: carrying its gauge name,
/// the broker label, no state label, and the j-th counter value.
pub open spec fn value_cell_ok(cell: GaugeCell, br: BrokerStats, j: int) -> bool {
    &&& cell.name@ == spec_broker_gauge_name(j)
    &&& cell.value == spec_broker_value(br, j)
    &&& cell.state is None
    &&& cell.broker is Some
    &&& cell.broker->0@ == br.name@
}

fn state_name(k: usize) -> (r: Vec<u8>)
    requires
        k < 8,
    ensures
        r@ == spec_state_name(k as int),
{
    let bytes: &[u8] = if k == 0 {
        [73u8, 78u8, 73u8, 84u8].as_slice()
    } else if k == 1 {
        [68u8, 79u8, 87u8, 78u8].as_slice()
    } else if k == 2 {
        [67u8, 79u8, 78u8, 78u8, 69u8, 67u8, 84u8].as_slice()
    } else if k == 3 {
        [65u8, 85u8, 84u8, 72u8].as_slice()
    } else if k == 4 {
        [
            65u8,
            80u8,
            73u8,
            86u8,
            69u8,
            82u8,
            83u8,
            73u8,
            79u8,
            78u8,
            95u8,
            81u8,
            85u8,
            69u8,
            82u8,
            89u8,
        ].as_slice()
    } else if k == 5 {
        [
            65u8,
            85u8,
            84u8,
            72u8,
            95u8,
            72u8,
            65u8,
            78u8,
            68u8,
            83u8,
            72u8,
            65u8,
            75u8,
            69u8,
        ].as_slice()
    } else if k == 6 {
        [85u8, 80u8].as_slice()
    } else {
        [85u8, 80u8, 68u8, 65u8, 84u8, 69u8].as_slice()
    };
    let mut out: Vec<u8> = Vec::new();
    let mut i: usize = 0;
    while i < bytes.len()
        invariant
            i <= bytes.len(),
            out@ == bytes@.take(i as int),
        decreases bytes.len() - i,
    {
        out.push(bytes[i]);
        i = i + 1;
        proof {
            assert(bytes@.take(i - 1) + seq![bytes@[i - 1]] =~= bytes@.take(i as int));
        }
    }
    proof {
        assert(bytes@.take(bytes@.len() as int) =~= bytes@);
        assert(spec_state_name(k as int) =~= bytes@);
    }
    out
}

/// The eight state cells of one broker: value 1 exactly for the state the
/// broker reports, 0 for every other.
pub fn broker_state_cells(broker: &BrokerStats) -> (r: Vec<GaugeCell>)
    ensures
        r@.len() == 8,
        forall|k: int| 0 <= k < 8 ==> state_cell_ok(#[trigger] r@[k], *broker, k),
{
    let mut out: Vec<GaugeCell> = Vec::new();
    let mut k: usize = 0;
    while k < 8
        invariant
            k <= 8,
            out@.len() == k,
            forall|q: int| 0 <= q < k ==> state_cell_ok(#[trigger] out@[q], *broker, q),
        decreases 8 - k,
    {
        let sname = state_name(k);
        let matches_state = crate::util::bytes_eq(broker.state.as_slice(), sname.as_slice());
        let value: i128 = if matches_state {
            1
        } else {
            0
        };
        let name: [u8; 12] = [98, 114, 111, 107, 101, 114, 95, 115, 116, 97, 116, 101];
        let mut gname: Vec<u8> = Vec::new();
        let mut i: usize = 0;
        while i < 12
            invariant
                name@ =~= spec_state_gauge_name(),
                i <= 12,
                gname@ == name@.take(i as int),
            decreases 12 - i,
        {
            gname.push(name[i]);
            i = i + 1;
            proof {
                assert(name@.take(i - 1) + seq![name@[i - 1]] =~= name@.take(i as int));
            }
        }
        proof {
            assert(name@.take(12) =~= name@);
        }
        out.push(GaugeCell {
            name: gname,
            broker: Some(clone_bytes(&broker.name)),
            state: Some(sname),
            value,
        });
        k = k + 1;
    }
    out
}

/// The eight per-broker counter gauges, in the fixed exposition order.
pub fn broker_value_cells(broker: &BrokerStats) -> (r: Vec<GaugeCell>)
    ensures
        r@.len() == 8,
        forall|j: int| 0 <= j < 8 ==> value_cell_ok(#[trigger] r@[j], *broker, j),
{
    let mut out: Vec<GaugeCell> = Vec::new();
    let values: [i128; 8] = [
        broker.outbuf_cnt as i128,
        broker.outbuf_msg_cnt as i128,
        broker.waitresp_cnt as i128,
        broker.waitresp_msg_cnt as i128,
        broker.tx as i128,
        broker.txbytes as i128,
        broker.rx as i128,
        broker.rxbytes as i128,
    ];
    let mut k: usize = 0;
    while k < 8
        invariant
            k <= 8,
            out@.len() == k,
            values@.len() == 8,
            forall|j: int| 0 <= j < 8 ==> #[trigger] values@[j] as int == spec_broker_value(*broker, j),
            forall|q: int| 0 <= q < k ==> value_cell_ok(#[trigger] out@[q], *broker, q),
        decreases 8 - k,
    {
        out.push(GaugeCell {
            name: broker_gauge_name(k),
            broker: Some(clone_bytes(&broker.name)),
            state: None,
            value: values[k],
        });
        k = k + 1;
    }
    out
}

fn broker_gauge_name(k: usize) -> (r: Vec<u8>)
    requires
        k < 8,
    ensures
        r@ == spec_broker_gauge_name(k as int),
{
    let bytes: &[u8] = if k == 0 {
        [98, 114, 111, 107, 101, 114, 95, 111, 117, 116, 98, 117, 102, 99, 110, 116].as_slice()
    } else if k == 1 {
        [
            98,
            114,
            111,
            107,
            101,
            114,
            95,
            111,
            117,
            116,
            98,
            117,
            102,
            109,
            115,
            103,
            99,
            110,
            116,
        ].as_slice()
    } else if k == 2 {
        [98, 114, 111, 107, 101, 114, 95, 119, 97, 105, 116, 114, 101, 115, 112, 99, 110, 116]
            .as_slice()
    } else if k == 3 {
        [
            98,
            114,
            111,
            107,
            101,
            114,
            95,
            119,
            97,
            105,
            116,
            114,
            101,
            115,
            112,
            109,
            115,
            103,
            99,
            110,
            116,
        ].as_slice()
    } else if k == 4 {
        [98, 114, 111, 107, 101, 114, 95, 116, 120].as_slice()
    } else if k == 5 {
        [98, 114, 111, 107, 101, 114, 95, 116, 120, 98, 121, 116, 101, 115].as_slice()
    } else if k == 6 {
        [98, 114, 111, 107, 101, 114, 95, 114, 120].as_slice()
    } else {
        [98, 114, 111, 107, 101, 114, 95, 114, 120, 98, 121, 116, 101, 115].as_slice()
    };
    let mut out: Vec<u8> = Vec::new();
    let mut i: usize = 0;
    while i < bytes.len()
        invariant
            i <= bytes.len(),
            out@ == bytes@.take(i as int),
        decreases bytes.len() - i,
    {
        out.push(bytes[i]);
        i = i + 1;
        proof {
            assert(bytes@.take(i - 1) + seq![bytes@[i - 1]] =~= bytes@.take(i as int));
        }
    }
    proof {
        assert(bytes@.take(bytes@.len() as int) =~= bytes@);
        assert(spec_broker_gauge_name(k as int) =~= bytes@);
    }
    out
}

fn top_gauge_name(k: usize) -> (r: Vec<u8>)
    requires
        k < 10,
    ensures
        r@ == spec_top_name(k as int),
{
    let bytes: &[u8] = if k == 0 {
        [114, 101, 112, 108, 121, 113].as_slice()
    } else if k == 1 {
        [109, 115, 103, 99, 110, 116].as_slice()
    } else if k == 2 {
        [116, 120].as_slice()
    } else if k == 3 {
        [116, 120, 98, 121, 116, 101, 115].as_slice()
    } else if k == 4 {
        [114, 120].as_slice()
    } else if k == 5 {
        [114, 120, 98, 121, 116, 101, 115].as_slice()
    } else if k == 6 {
        [116, 120, 109, 115, 103, 115].as_slice()
    } else if k == 7 {
        [116, 120, 109, 115, 103, 115, 98, 121, 116, 101, 115].as_slice()
    } else if k == 8 {
        [114, 120, 109, 115, 103, 115].as_slice()
    } else {
        [114, 120, 109, 115, 103, 115, 98, 121, 116, 101, 115].as_slice()
    };
    let mut out: Vec<u8> = Vec::new();
    let mut i: usize = 0;
    while i < bytes.len()
        invariant
            i <= bytes.len(),
            out@ == bytes@.take(i as int),
        decreases bytes.len() - i,
    {
        out.push(bytes[i]);
        i = i + 1;
        proof {
            assert(bytes@.take(i - 1) + seq![bytes@[i - 1]] =~= bytes@.take(i as int));
        }
    }
    proof {
        assert(bytes@.take(bytes@.len() as int) =~= bytes@);
        assert(spec_top_name(k as int) =~= bytes@);
    }
    out
}

/// The name of the j-th process-level gauge, in exposition order: replyq,
/// msgcnt, tx, txbytes, rx, rxbytes, txmsgs, txmsgsbytes, rxmsgs,
/// rxmsgsbytes.
pub open spec fn spec_top_name(j: int) -> Seq<u8> {
    if j == 0 {
        seq![114u8, 101u8, 112u8, 108u8, 121u8, 113u8]
    } else if j == 1 {
        seq![109u8, 115u8, 103u8, 99u8, 110u8, 116u8]
    } else if j == 2 {
        seq![116u8, 120u8]
    } else if j == 3 {
        seq![116u8, 120u8, 98u8, 121u8, 116u8, 101u8, 115u8]
    } else if j == 4 {
        seq![114u8, 120u8]
    } else if j == 5 {
        seq![114u8, 120u8, 98u8, 121u8, 116u8, 101u8, 115u8]
    } else if j == 6 {
        seq![116u8, 120u8, 109u8, 115u8, 103u8, 115u8]
    } else if j == 7 {
        seq![116u8, 120u8, 109u8, 115u8, 103u8, 115u8, 98u8, 121u8, 116u8, 101u8, 115u8]
    } else if j == 8 {
        seq![114u8, 120u8, 109u8, 115u8, 103u8, 115u8]
    } else {
        seq![114u8, 120u8, 109u8, 115u8, 103u8, 115u8, 98u8, 121u8, 116u8, 101u8, 115u8]
    }
}

/// The j-th process-level cell is correct: its fixed name, the snapshot's
/// value, and no labels.
pub open spec fn top_cell_ok(cell: GaugeCell, stats: StatsSnapshot, j: int) -> bool {
    &&& cell.name@ == spec_top_name(j)
    &&& cell.value == spec_top_value(stats, j)
    &&& cell.broker is None
    &&& cell.state is None
}

/// The j-th process-level gauge value, in exposition order.
pub open spec fn spec_top_value(stats: StatsSnapshot, j: int) -> int {
    if j == 0 {
        stats.replyq as int
    } else if j == 1 {
        stats.msg_cnt as int
    } else if j == 2 {
        stats.tx as int
    } else if j == 3 {
        stats.tx_bytes as int
    } else if j == 4 {
        stats.rx as int
    } else if j == 5 {
        stats.rx_bytes as int
    } else if j == 6 {
        stats.txmsgs as int
    } else if j == 7 {
        stats.txmsg_bytes as int
    } else if j == 8 {
        stats.rxmsgs as int
    } else {
        stats.rxmsg_bytes as int
    }
}

/// Every gauge sample of one snapshot: the ten process-level gauges, then
/// sixteen cells for each broker in order.
#[verifier::rlimit(100)]
pub fn stats_cells(stats: &StatsSnapshot) -> (r: Vec<GaugeCell>)
    ensures
        r@.len() == 10 + 16 * stats.brokers@.len(),
        forall|j: int| 0 <= j < 10 ==> top_cell_ok(#[trigger] r@[j], *stats, j),
        forall|b: int, k: int|
            0 <= b < stats.brokers@.len() && 0 <= k < 8 ==> state_cell_ok(
                #[trigger] r@[10 + 16 * b + k],
                stats.brokers@[b],
                k,
            ),
        forall|b: int, j: int|
            0 <= b < stats.brokers@.len() && 0 <= j < 8 ==> value_cell_ok(
                #[trigger] r@[10 + 16 * b + 8 + j],
                stats.brokers@[b],
                j,
            ),
{
    let mut out: Vec<GaugeCell> = Vec::new();
    let top: [i128; 10] = [
        stats.replyq as i128,
        stats.msg_cnt as i128,
        stats.tx as i128,
        stats.tx_bytes as i128,
        stats.rx as i128,
        stats.rx_bytes as i128,
        stats.txmsgs as i128,
        stats.txmsg_bytes as i128,
        stats.rxmsgs as i128,
        stats.rxmsg_bytes as i128,
    ];
    let mut k: usize = 0;
    while k < 10
        invariant
            k <= 10,
            out@.len() == k,
            top@.len() == 10,
            forall|j: int| 0 <= j < 10 ==> #[trigger] top@[j] as int == spec_top_value(*stats, j),
            forall|q: int| 0 <= q < k ==> top_cell_ok(#[trigger] out@[q], *stats, q),
        decreases 10 - k,
    {
        out.push(GaugeCell { name: top_gauge_name(k), broker: None, state: None, value: top[k] });
        k = k + 1;
    }
    let mut b: usize = 0;
    while b < stats.brokers.len()
        invariant
            b <= stats.brokers@.len(),
            out@.len() == 10 + 16 * b,
            forall|q: int| 0 <= q < 10 ==> top_cell_ok(#[trigger] out@[q], *stats, q),
            forall|q: int, k2: int|
                0 <= q < b && 0 <= k2 < 8 ==> state_cell_ok(
                    #[trigger] out@[10 + 16 * q + k2],
                    stats.brokers@[q],
                    k2,
                ),
            forall|q: int, j: int|
                0 <= q < b && 0 <= j < 8 ==> value_cell_ok(
                    #[trigger] out@[10 + 16 * q + 8 + j],
                    stats.brokers@[q],
                    j,
                ),
        decreases stats.brokers.len() - b,
    {
        let ghost out0 = out@;
        let ghost b0 = b as int;
        let mut states = broker_state_cells(&stats.brokers[b]);
        let mut values = broker_value_cells(&stats.brokers[b]);
        let ghost statesg = states@;
        let ghost valuesg = values@;
        out.append(&mut states);
        out.append(&mut values);
        b = b + 1;
        proof {
            assert(statesg.len() == 8 && valuesg.len() == 8);
            assert(out0.len() == 10 + 16 * b0);
            assert(out@ =~= out0 + statesg + valuesg);
            assert forall|q: int, k2: int|
                0 <= q < b && 0 <= k2 < 8 implies state_cell_ok(
                #[trigger] out@[10 + 16 * q + k2],
                stats.brokers@[q],
                k2,
            ) by {
                if q < b0 {
                    assert(out@[10 + 16 * q + k2] == out0[10 + 16 * q + k2]);
                } else {
                    assert(out@[10 + 16 * q + k2] == statesg[k2]);
                }
            }
            assert forall|q: int, j: int|
                0 <= q < b && 0 <= j < 8 implies value_cell_ok(
                #[trigger] out@[10 + 16 * q + 8 + j],
                stats.brokers@[q],
                j,
            ) by {
                if q < b0 {
                    assert(out@[10 + 16 * q + 8 + j] == out0[10 + 16 * q + 8 + j]);
                } else {
                    assert(out@[10 + 16 * q + 8 + j] == valuesg[j]);
                }
            }
        }
    }
    out
}

} // verus!
