use traffic_monitor::aggregate::AggTables;
use traffic_monitor::aggs::Connection;
use traffic_monitor::aggs::Direction;
use traffic_monitor::aggs::IPAggs;
use traffic_monitor::aggs::Message;
use traffic_monitor::aggs::PortAggs;
use traffic_monitor::control::drain_step;
use traffic_monitor::control::DrainAction;
use traffic_monitor::control::DrainEvent;
use traffic_monitor::control::DrainState;
use traffic_monitor::drain::drain_iteration;
use traffic_monitor::drain::BPFDataIteration;
use traffic_monitor::drain::EsReadyIpAggs;
use traffic_monitor::drain::EsReadyPortAggs;
use traffic_monitor::extract::exit_event;
use traffic_monitor::extract::extract_connection;
use traffic_monitor::extract::SocketSnapshot;
use traffic_monitor::extract::AF_INET;
use traffic_monitor::filter::probe;
use traffic_monitor::filter::IngressAction;
use traffic_monitor::filter::PacketMeta;
use traffic_monitor::network_utils::ipv4_to_u32;
use traffic_monitor::sync::refresh_blacklist;
use traffic_monitor::table::BoundedMap;

fn packet(saddr: u32, daddr: u32) -> PacketMeta {
    PacketMeta { saddr, daddr, sport: 443, dport: 51000, data_len: 60, data_offset: 14 }
}

#[test]
fn blacklisted_source_is_dropped_without_counting() {
    let bad = ipv4_to_u32(vec![9, 9, 9, 9]);
    let mut blacklist: BoundedMap<u32> = BoundedMap::new(16);
    refresh_blacklist(&mut blacklist, &vec![bad]);
    let mut ips: BoundedMap<IPAggs> = BoundedMap::new(16);
    let mut ports: BoundedMap<PortAggs> = BoundedMap::new(16);
    let r = probe(&blacklist, &mut ips, &mut ports, packet(bad, 1));
    assert_eq!(r, IngressAction::Dropped);
    assert_eq!(ips.len(), 0);
    assert_eq!(ports.len(), 0);
}

#[test]
fn removing_an_address_readmits_its_packets() {
    let bad = ipv4_to_u32(vec![9, 9, 9, 9]);
    let mut blacklist: BoundedMap<u32> = BoundedMap::new(16);
    refresh_blacklist(&mut blacklist, &vec![bad]);
    let mut ips: BoundedMap<IPAggs> = BoundedMap::new(16);
    let mut ports: BoundedMap<PortAggs> = BoundedMap::new(16);
    assert_eq!(probe(&blacklist, &mut ips, &mut ports, packet(bad, 1)), IngressAction::Dropped);
    refresh_blacklist(&mut blacklist, &vec![]);
    assert_eq!(probe(&blacklist, &mut ips, &mut ports, packet(bad, 1)), IngressAction::Passed);
    assert_eq!(ips.get(bad as u64).unwrap().count, 1);
    assert_eq!(ips.get(1).unwrap().count, 1);
    assert_eq!(ports.get(443).unwrap().count, 1);
    assert_eq!(ports.get(51000).unwrap().count, 1);
}

#[test]
fn admitted_packet_credits_both_endpoints() {
    let blacklist: BoundedMap<u32> = BoundedMap::new(16);
    let mut ips: BoundedMap<IPAggs> = BoundedMap::new(16);
    let mut ports: BoundedMap<PortAggs> = BoundedMap::new(16);
    let r = probe(&blacklist, &mut ips, &mut ports, packet(5, 6));
    assert_eq!(r, IngressAction::Passed);
    let src = ips.get(5).unwrap();
    assert_eq!((src.count, src.usage), (1, 592));
    let dst = ips.get(6).unwrap();
    assert_eq!((dst.count, dst.usage), (1, 592));
}

#[test]
fn packet_volume_is_credited_in_bits() {
    let blacklist: BoundedMap<u32> = BoundedMap::new(4);
    let mut ips: BoundedMap<IPAggs> = BoundedMap::new(4);
    let mut ports: BoundedMap<PortAggs> = BoundedMap::new(4);
    let pkt = PacketMeta { saddr: 1, daddr: 2, sport: 3, dport: 4, data_len: 1, data_offset: 0 };
    assert_eq!(probe(&blacklist, &mut ips, &mut ports, pkt), IngressAction::Passed);
    assert_eq!(ips.get(1).unwrap().usage, 8);
    assert_eq!(ips.get(2).unwrap().usage, 8);
}

fn send(saddr: u32, daddr: u32, bits: u16) -> Message {
    Message::Send(Connection { sport: 443, dport: 51000, saddr, daddr }, bits)
}

#[test]
fn two_sends_aggregate_and_drain_as_one_record_each() {
    let x = ipv4_to_u32(vec![10, 0, 0, 1]);
    let y = ipv4_to_u32(vec![10, 0, 0, 2]);
    let mut tables = AggTables::new(64);
    tables.record_message(send(x, y, 100));
    tables.record_message(send(x, y, 200));
    assert_eq!(tables.download_ip.len(), 0);
    assert_eq!(tables.download_port.len(), 0);
    let it = drain_iteration(&mut tables.upload_ip, &mut tables.upload_port);
    assert_eq!(it.ips.len(), 2);
    for rec in &it.ips {
        assert_eq!(rec.count, 2);
        assert_eq!(rec.usage, 300);
        assert!(rec.ip == "10.0.0.1" || rec.ip == "10.0.0.2");
    }
    assert_eq!(it.ports.len(), 2);
    for rec in &it.ports {
        assert_eq!(rec.count, 2);
        assert!(rec.port == 443 || rec.port == 51000);
    }
    assert_eq!(it.packet_count, 4);
}

#[test]
fn repeated_sends_to_one_address_sum_their_lengths() {
    let a = ipv4_to_u32(vec![10, 0, 0, 1]);
    let mut tables = AggTables::new(64);
    for bits in [1u16, 2, 3, 4, 5] {
        tables.record_message(Message::Send(
            Connection { sport: 1, dport: 1, saddr: a, daddr: a },
            bits,
        ));
    }
    let g = tables.upload_ip.get(a as u64).unwrap();
    assert_eq!(g.count, 10);
    assert_eq!(g.usage, 30);
    assert_eq!(tables.upload_ip.len(), 1);
}

#[test]
fn receive_events_credit_the_download_tables() {
    let mut tables = AggTables::new(64);
    tables.record_message(Message::Receive(
        Connection { sport: 80, dport: 2000, saddr: 1, daddr: 2 },
        50,
    ));
    assert_eq!(tables.upload_ip.len(), 0);
    assert_eq!(tables.download_ip.get(1).unwrap().usage, 50);
    assert_eq!(tables.download_port.get(80).unwrap().count, 1);
    assert_eq!(tables.download_port.get(2000).unwrap().count, 1);
}

#[test]
fn counters_wrap_instead_of_saturating() {
    let mut tables = AggTables::new(8);
    let a: u32 = 1;
    tables.upload_ip.set(a as u64, IPAggs { count: u32::MAX, usage: u32::MAX - 9 });
    tables.record_message(Message::Send(
        Connection { sport: 1, dport: 2, saddr: a, daddr: 2 },
        30,
    ));
    let g = tables.upload_ip.get(a as u64).unwrap();
    assert_eq!(g.count, 0);
    assert_eq!(g.usage, 20);
}

#[test]
fn second_drain_without_events_is_empty() {
    let mut tables = AggTables::new(64);
    tables.record_message(send(1, 2, 10));
    let first = drain_iteration(&mut tables.upload_ip, &mut tables.upload_port);
    assert_eq!(first.ips.len(), 2);
    assert_eq!(first.ports.len(), 2);
    let second = drain_iteration(&mut tables.upload_ip, &mut tables.upload_port);
    assert!(second.ips.is_empty());
    assert!(second.ports.is_empty());
    assert_eq!(second.packet_count, 0);
}

#[test]
fn full_aggregation_table_drops_new_keys() {
    let mut tables = AggTables::new(1);
    tables.record_message(send(1, 2, 10));
    assert_eq!(tables.upload_ip.len(), 1);
    assert_eq!(tables.upload_ip.get(1).unwrap().count, 1);
    assert!(tables.upload_ip.get(2).is_none());
}

#[test]
fn iteration_serializes_exactly() {
    let it = BPFDataIteration {
        ips: vec![EsReadyIpAggs { ip: "10.0.0.1".to_string(), count: 2, usage: 300 }],
        ports: vec![
            EsReadyPortAggs { port: 443, count: 2 },
            EsReadyPortAggs { port: 51000, count: 2 },
        ],
        packet_count: 4,
    };
    assert_eq!(
        it.to_json(),
        "{\"ips\":[{\"ip\":\"10.0.0.1\",\"count\":2,\"usage\":300}],\"ports\":[{\"port\":443,\"count\":2},{\"port\":51000,\"count\":2}],\"packet_count\":4}"
    );
    let frame = it.to_frame();
    assert!(frame.ends_with('\n'));
    assert_eq!(frame.trim_end(), it.to_json());
}

#[test]
fn empty_iteration_serializes_exactly() {
    let it = BPFDataIteration { ips: vec![], ports: vec![], packet_count: 0 };
    assert_eq!(it.to_json(), "{\"ips\":[],\"ports\":[],\"packet_count\":0}");
}

#[test]
fn send_failure_exits_without_retry() {
    let (state, action) = drain_step(DrainState::Draining, DrainEvent::SendFailed);
    assert_eq!(action, DrainAction::ExitFailure);
    assert_ne!(action, DrainAction::DrainAndSend);
    assert_eq!(state, DrainState::Idle);
}

#[test]
fn timer_starts_a_drain_and_success_returns_to_idle() {
    let (s1, a1) = drain_step(DrainState::Idle, DrainEvent::TimerFired);
    assert_eq!((s1, a1), (DrainState::Draining, DrainAction::DrainAndSend));
    let (s2, a2) = drain_step(s1, DrainEvent::SendSucceeded);
    assert_eq!((s2, a2), (DrainState::Idle, DrainAction::KeepWaiting));
    let (s3, a3) = drain_step(DrainState::Idle, DrainEvent::SendFailed);
    assert_eq!((s3, a3), (DrainState::Idle, DrainAction::KeepWaiting));
}

#[test]
fn extraction_normalizes_the_remote_port() {
    let snap = SocketSnapshot {
        family: AF_INET,
        daddr: Some(7),
        saddr: Some(8),
        dport_be: Some(0xBB01),
        sport: Some(51000),
    };
    let c = extract_connection(&snap).unwrap();
    assert_eq!(c.dport, 443);
    assert_eq!(c.sport, 51000);
    assert_eq!(c.saddr, 8);
    assert_eq!(c.daddr, 7);
}

#[test]
fn extraction_fails_closed() {
    let good = SocketSnapshot {
        family: AF_INET,
        daddr: Some(7),
        saddr: Some(8),
        dport_be: Some(443),
        sport: Some(51000),
    };
    assert!(extract_connection(&SocketSnapshot { family: 10, ..good }).is_none());
    assert!(extract_connection(&SocketSnapshot { daddr: None, ..good }).is_none());
    assert!(extract_connection(&SocketSnapshot { saddr: None, ..good }).is_none());
    assert!(extract_connection(&SocketSnapshot { dport_be: None, ..good }).is_none());
    assert!(extract_connection(&SocketSnapshot { sport: None, ..good }).is_none());
    assert!(extract_connection(&good).is_some());
}

#[test]
fn exit_events_carry_the_probe_direction() {
    let snap = SocketSnapshot {
        family: AF_INET,
        daddr: Some(7),
        saddr: Some(8),
        dport_be: Some(0xBB01),
        sport: Some(51000),
    };
    let m = exit_event(Direction::Upload, &snap, 100).unwrap();
    assert!(matches!(m, Message::Send(c, 100) if c.dport == 443 && c.saddr == 8));
    let m2 = exit_event(Direction::Download, &snap, 7).unwrap();
    assert!(matches!(m2, Message::Receive(_, 7)));
    assert!(exit_event(Direction::Upload, &SocketSnapshot { family: 10, ..snap }, 1).is_none());
}

#[test]
fn messages_map_to_their_direction() {
    let c = Connection { sport: 1, dport: 2, saddr: 3, daddr: 4 };
    assert_eq!(Message::Send(c, 1).direction(), Direction::Upload);
    let c2 = Connection { sport: 1, dport: 2, saddr: 3, daddr: 4 };
    assert_eq!(Message::Receive(c2, 1).direction(), Direction::Download);
}
