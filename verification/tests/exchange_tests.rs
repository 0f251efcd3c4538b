use data_exchange::block::DataBlock;
use data_exchange::block::WireUnit;
use data_exchange::coordinator::EmitOutcome;
use data_exchange::coordinator::OrderingCoordinator;
use data_exchange::coordinator::merge_sorted_lanes;
use data_exchange::error::ExchangeError;
use data_exchange::exchange_sink::ExchangeSink;
use data_exchange::params::ExchangeParams;
use data_exchange::params::MergeExchangeParams;
use data_exchange::params::OrderingSpec;
use data_exchange::params::PartitionScheme;
use data_exchange::params::ShuffleExchangeParams;
use data_exchange::pipeline::Pipeline;
use data_exchange::pipeline::Stage;
use data_exchange::serializer::ExchangeSerializer;
use data_exchange::shuffle::dest_of;
use data_exchange::shuffle::route_block;
use data_exchange::sorting::ExchangeSorting;
use data_exchange::sorting::SinkExchangeSorting;
use data_exchange::transport::ExchangeWriterSink;
use data_exchange::transport::TransportHandle;
use data_exchange::transport::run_lane;

fn unit(stamp: u64) -> WireUnit {
    WireUnit { schema_id: 1, payload: vec![stamp], block_number: Some(stamp) }
}

#[test]
fn three_lane_merge_emits_global_order() {
    // Three lanes stamped [0,2,4], [1,3] and [5]: the merged output
    // must come out as 0,1,2,3,4,5.
    let lanes = vec![
        vec![unit(0), unit(2), unit(4)],
        vec![unit(1), unit(3)],
        vec![unit(5)],
    ];
    let out = merge_sorted_lanes(SinkExchangeSorting::create(), lanes).unwrap();
    let stamps: Vec<u64> = out.iter().map(|u| u.block_number.unwrap()).collect();
    assert_eq!(stamps, vec![0, 1, 2, 3, 4, 5]);
    // payloads travel with their stamps
    for u in &out {
        assert_eq!(u.payload, vec![u.block_number.unwrap()]);
    }
}

#[test]
fn merge_of_empty_lanes_is_empty() {
    let lanes: Vec<Vec<WireUnit>> = vec![Vec::new(), Vec::new()];
    let out = merge_sorted_lanes(SinkExchangeSorting::create(), lanes).unwrap();
    assert!(out.is_empty());
}

#[test]
fn merge_of_single_lane_keeps_its_order() {
    let lanes = vec![vec![unit(3), unit(7), unit(9)]];
    let out = merge_sorted_lanes(SinkExchangeSorting::create(), lanes).unwrap();
    let stamps: Vec<u64> = out.iter().map(|u| u.block_number.unwrap()).collect();
    assert_eq!(stamps, vec![3, 7, 9]);
}

#[test]
fn duplicate_stamp_across_lanes_is_fatal() {
    let lanes = vec![vec![unit(1), unit(7)], vec![unit(7)]];
    let r = merge_sorted_lanes(SinkExchangeSorting::create(), lanes);
    assert!(matches!(
        r,
        Err(ExchangeError::DuplicateBlockNumber { block_number: 7 })
    ));
}

#[test]
fn coordinator_defers_while_an_active_lane_is_empty() {
    let mut coord = OrderingCoordinator::create(SinkExchangeSorting::create(), 2);
    coord.offer(0, unit(4));
    // lane 1 has offered nothing and is not finished: no emission yet
    match coord.try_emit().unwrap() {
        EmitOutcome::NeedData(lane) => assert_eq!(lane, 1),
        _ => panic!("coordinator must defer instead of guessing an order"),
    }
    // once lane 1 finishes, lane 0's unit may flow
    coord.finish_lane(1);
    match coord.try_emit().unwrap() {
        EmitOutcome::Output { lane, unit } => {
            assert_eq!(lane, 0);
            assert_eq!(unit.block_number, Some(4));
        },
        _ => panic!("expected an emission"),
    }
}

#[test]
fn coordinator_reports_missing_stamp() {
    let mut coord = OrderingCoordinator::create(SinkExchangeSorting::create(), 1);
    coord.offer(
        0,
        WireUnit { schema_id: 1, payload: vec![8], block_number: None },
    );
    let r = coord.try_emit();
    assert!(matches!(r, Err(ExchangeError::MissingBlockNumber)));
}

#[test]
fn coordinator_finishes_once_all_lanes_are_done() {
    let mut coord = OrderingCoordinator::create(SinkExchangeSorting::create(), 2);
    coord.finish_lane(0);
    coord.finish_lane(1);
    assert!(matches!(coord.try_emit().unwrap(), EmitOutcome::Finished));
}

#[test]
fn serializer_stamps_consecutively_from_zero() {
    let mut s = ExchangeSerializer::create(9, true);
    let u0 = s
        .serialize(DataBlock { schema_id: 9, rows: vec![10, 11] })
        .unwrap();
    let u1 = s.serialize(DataBlock { schema_id: 9, rows: vec![12] }).unwrap();
    assert_eq!(u0.block_number, Some(0));
    assert_eq!(u1.block_number, Some(1));
    assert_eq!(u0.payload, vec![10, 11]);
    assert_eq!(u1.payload, vec![12]);
    assert_eq!(u0.schema_id, 9);
}

#[test]
fn serializer_without_sorting_leaves_units_unstamped() {
    let mut s = ExchangeSerializer::create(9, false);
    let u = s.serialize(DataBlock { schema_id: 9, rows: vec![1] }).unwrap();
    assert_eq!(u.block_number, None);
    assert_eq!(u.payload, vec![1]);
}

#[test]
fn serializer_rejects_schema_mismatch() {
    let mut s = ExchangeSerializer::create(9, true);
    let r = s.serialize(DataBlock { schema_id: 5, rows: vec![1] });
    assert!(matches!(
        r,
        Err(ExchangeError::SchemaMismatch { expected: 9, actual: 5 })
    ));
}

#[test]
fn run_lane_delivers_blocks_in_arrival_order() {
    let mut s = ExchangeSerializer::create(2, true);
    let mut sink = ExchangeWriterSink::create(TransportHandle::create(42));
    let blocks = vec![
        DataBlock { schema_id: 2, rows: vec![10, 11] },
        DataBlock { schema_id: 2, rows: vec![20] },
        DataBlock { schema_id: 2, rows: vec![30] },
    ];
    run_lane(&mut s, &mut sink, blocks).unwrap();
    let payloads: Vec<Vec<u64>> = sink.handle.sent.iter().map(|u| u.payload.clone()).collect();
    assert_eq!(payloads, vec![vec![10, 11], vec![20], vec![30]]);
    let stamps: Vec<Option<u64>> = sink.handle.sent.iter().map(|u| u.block_number).collect();
    assert_eq!(stamps, vec![Some(0), Some(1), Some(2)]);
}

#[test]
fn run_lane_stops_at_first_schema_mismatch() {
    let mut s = ExchangeSerializer::create(2, false);
    let mut sink = ExchangeWriterSink::create(TransportHandle::create(42));
    let blocks = vec![
        DataBlock { schema_id: 2, rows: vec![10] },
        DataBlock { schema_id: 3, rows: vec![20] },
        DataBlock { schema_id: 2, rows: vec![30] },
    ];
    let r = run_lane(&mut s, &mut sink, blocks);
    assert!(matches!(
        r,
        Err(ExchangeError::SchemaMismatch { expected: 2, actual: 3 })
    ));
    // the block before the defect was already queued, nothing after it
    assert_eq!(sink.handle.sent.len(), 1);
    assert_eq!(sink.handle.sent[0].payload, vec![10]);
}

#[test]
fn closed_transport_is_fatal_to_the_sink() {
    let mut handle = TransportHandle::create(7);
    handle.closed = true;
    let mut sink = ExchangeWriterSink::create(handle);
    let r = sink.consume(unit(0));
    assert!(matches!(
        r,
        Err(ExchangeError::TransportClosed { destination_id: 7 })
    ));
    assert!(sink.handle.sent.is_empty());
}

#[test]
fn route_block_partitions_by_key_modulo() {
    let block = DataBlock { schema_id: 4, rows: vec![0, 1, 2, 3, 4, 5, 6] };
    let parts = route_block(&block, &PartitionScheme::KeyModulo, 3);
    assert_eq!(parts.len(), 3);
    assert_eq!(parts[0].rows, vec![0, 3, 6]);
    assert_eq!(parts[1].rows, vec![1, 4]);
    assert_eq!(parts[2].rows, vec![2, 5]);
    for p in &parts {
        assert_eq!(p.schema_id, 4);
    }
}

#[test]
fn dest_of_is_deterministic_and_in_range() {
    for row in 0..20u64 {
        let d = dest_of(&PartitionScheme::KeyModulo, row, 4);
        assert!(d < 4);
        assert_eq!(d, dest_of(&PartitionScheme::KeyModulo, row, 4));
        assert_eq!(d as u64, row % 4);
    }
}

#[test]
fn empty_partition_does_not_terminate_its_lane() {
    // every row lands on lane 0; lane 1 still receives a batch
    let block = DataBlock { schema_id: 4, rows: vec![0, 2, 4] };
    let parts = route_block(&block, &PartitionScheme::KeyModulo, 2);
    assert_eq!(parts.len(), 2);
    assert!(parts[1].rows.is_empty());
    // the zero-row batch flows through serializer and sink like any other
    let mut s = ExchangeSerializer::create(4, true);
    let mut sink = ExchangeWriterSink::create(TransportHandle::create(1));
    let u = s
        .serialize(DataBlock { schema_id: parts[1].schema_id, rows: parts[1].rows.clone() })
        .unwrap();
    assert_eq!(u.payload, Vec::<u64>::new());
    sink.consume(u).unwrap();
    assert_eq!(sink.handle.sent.len(), 1);
    // and at a merge point it is an ordinary unit, not a finish signal
    let mut coord = OrderingCoordinator::create(SinkExchangeSorting::create(), 1);
    coord.offer(
        0,
        WireUnit { schema_id: 4, payload: Vec::new(), block_number: Some(0) },
    );
    assert!(matches!(
        coord.try_emit().unwrap(),
        EmitOutcome::Output { lane: 0, unit: _ }
    ));
}

#[test]
fn merge_output_is_the_sorted_union_of_lanes() {
    let lanes = vec![
        vec![unit(10), unit(20), unit(30)],
        vec![unit(5), unit(15), unit(25)],
        vec![unit(1), unit(2), unit(3)],
    ];
    let out = merge_sorted_lanes(SinkExchangeSorting::create(), lanes).unwrap();
    let stamps: Vec<u64> = out.iter().map(|u| u.block_number.unwrap()).collect();
    assert_eq!(stamps, vec![1, 2, 3, 5, 10, 15, 20, 25, 30]);
}

#[test]
fn sink_sorting_reads_the_stamp_and_nothing_else() {
    let sorting = SinkExchangeSorting::create();
    assert_eq!(sorting.block_number(&unit(31)).unwrap(), 31);
    let bare = WireUnit { schema_id: 1, payload: vec![9], block_number: None };
    assert!(matches!(
        sorting.block_number(&bare),
        Err(ExchangeError::MissingBlockNumber)
    ));
}

fn merge_params(destination_id: u64, ordering: Option<OrderingSpec>) -> ExchangeParams {
    ExchangeParams::MergeExchange(MergeExchangeParams {
        destination_id,
        fragment_id: 17,
        schema_id: 4,
        ordering,
    })
}

#[test]
fn merge_to_local_node_fails_before_wiring() {
    let params = merge_params(5, Some(OrderingSpec::ByBlockNumber));
    let mut pipeline = Pipeline::create(3);
    let handles = vec![TransportHandle::create(5)];
    let r = ExchangeSink::via(5, &params, &mut pipeline, &handles);
    assert!(matches!(
        r,
        Err(ExchangeError::MergeDestinationIsLocal { destination_id: 5, fragment_id: 17 })
    ));
    // rejected at build time: the pipeline was never touched
    assert_eq!(pipeline.output_len(), 3);
    assert!(pipeline.stages.is_empty());
}

#[test]
fn merge_needs_exactly_one_resolved_handle() {
    let params = merge_params(9, None);
    let mut pipeline = Pipeline::create(2);
    let handles = vec![TransportHandle::create(9), TransportHandle::create(9)];
    let r = ExchangeSink::via(5, &params, &mut pipeline, &handles);
    assert!(matches!(
        r,
        Err(ExchangeError::DestinationCountMismatch { implied: 1, resolved: 2 })
    ));
    assert!(pipeline.stages.is_empty());
}

#[test]
fn ordered_merge_wires_serializer_coordinator_sink() {
    let params = merge_params(9, Some(OrderingSpec::ByBlockNumber));
    let mut pipeline = Pipeline::create(3);
    let handles = vec![TransportHandle::create(9)];
    ExchangeSink::via(5, &params, &mut pipeline, &handles).unwrap();
    assert_eq!(pipeline.output_len(), 0);
    assert_eq!(pipeline.stages.len(), 3);
    match &pipeline.stages[0] {
        Stage::SerializeTransform { lanes, schema_id, with_sorting } => {
            assert_eq!(*lanes, 3);
            assert_eq!(*schema_id, 4);
            assert!(*with_sorting);
        },
        _ => panic!("first stage must serialize and stamp"),
    }
    match &pipeline.stages[1] {
        Stage::OrderingMerge { inputs } => assert_eq!(*inputs, 3),
        _ => panic!("second stage must be the ordering coordinator"),
    }
    match &pipeline.stages[2] {
        Stage::WriterSinks { destinations } => assert_eq!(destinations, &vec![9]),
        _ => panic!("last stage must be the writer sink"),
    }
}

#[test]
fn unordered_merge_wires_one_sink_per_lane() {
    let params = merge_params(9, None);
    let mut pipeline = Pipeline::create(3);
    let handles = vec![TransportHandle::create(9)];
    ExchangeSink::via(5, &params, &mut pipeline, &handles).unwrap();
    assert_eq!(pipeline.stages.len(), 2);
    match &pipeline.stages[0] {
        Stage::SerializeTransform { lanes, schema_id, with_sorting } => {
            assert_eq!(*lanes, 3);
            assert_eq!(*schema_id, 4);
            assert!(!*with_sorting);
        },
        _ => panic!("first stage must serialize without stamping"),
    }
    match &pipeline.stages[1] {
        Stage::WriterSinks { destinations } => assert_eq!(destinations, &vec![9, 9, 9]),
        _ => panic!("last stage must be the writer sinks"),
    }
}

#[test]
fn shuffle_wires_router_serializers_sinks() {
    let params = ExchangeParams::ShuffleExchange(ShuffleExchangeParams {
        schema_id: 4,
        destination_ids: vec![11, 12, 13],
        scheme: PartitionScheme::KeyModulo,
    });
    let mut pipeline = Pipeline::create(2);
    let handles = vec![
        TransportHandle::create(11),
        TransportHandle::create(12),
        TransportHandle::create(13),
    ];
    ExchangeSink::via(5, &params, &mut pipeline, &handles).unwrap();
    assert_eq!(pipeline.output_len(), 0);
    assert_eq!(pipeline.stages.len(), 3);
    match &pipeline.stages[0] {
        Stage::ShuffleRouter { inputs, outputs } => {
            assert_eq!(*inputs, 2);
            assert_eq!(*outputs, 3);
        },
        _ => panic!("first stage must be the shuffle router"),
    }
    match &pipeline.stages[1] {
        Stage::SerializeTransform { lanes, schema_id, with_sorting } => {
            assert_eq!(*lanes, 3);
            assert_eq!(*schema_id, 4);
            assert!(!*with_sorting);
        },
        _ => panic!("second stage must serialize per destination"),
    }
    match &pipeline.stages[2] {
        Stage::WriterSinks { destinations } => assert_eq!(destinations, &vec![11, 12, 13]),
        _ => panic!("last stage must be the writer sinks"),
    }
}

#[test]
fn shuffle_handle_count_must_match_destinations() {
    let params = ExchangeParams::ShuffleExchange(ShuffleExchangeParams {
        schema_id: 4,
        destination_ids: vec![11, 12, 13],
        scheme: PartitionScheme::KeyModulo,
    });
    let mut pipeline = Pipeline::create(2);
    let handles = vec![TransportHandle::create(11), TransportHandle::create(12)];
    let r = ExchangeSink::via(5, &params, &mut pipeline, &handles);
    assert!(matches!(
        r,
        Err(ExchangeError::DestinationCountMismatch { implied: 3, resolved: 2 })
    ));
    assert!(pipeline.stages.is_empty());
}

#[test]
fn end_to_end_ordered_merge_path() {
    // two producer lanes, each serialized and stamped, merged into one
    // order, delivered to one destination in that order
    let mut s0 = ExchangeSerializer::create(1, true);
    let mut s1 = ExchangeSerializer::create(1, true);
    let lane0: Vec<WireUnit> = vec![
        s0.serialize(DataBlock { schema_id: 1, rows: vec![100] }).unwrap(),
        s0.serialize(DataBlock { schema_id: 1, rows: vec![101] }).unwrap(),
    ];
    let lane1: Vec<WireUnit> = vec![
        s1.serialize(DataBlock { schema_id: 1, rows: vec![200] }).unwrap(),
    ];
    // per-lane stamps coincide across lanes, so re-stamp lane 1 as a
    // later producer would: the coordinator needs cross-lane-unique keys
    let lane1: Vec<WireUnit> = lane1
        .into_iter()
        .map(|u| WireUnit { block_number: Some(u.block_number.unwrap() + 2), ..u })
        .collect();
    let merged = merge_sorted_lanes(SinkExchangeSorting::create(), vec![lane0, lane1]).unwrap();
    let mut sink = ExchangeWriterSink::create(TransportHandle::create(9));
    for u in merged {
        sink.consume(u).unwrap();
    }
    let payloads: Vec<Vec<u64>> = sink.handle.sent.iter().map(|u| u.payload.clone()).collect();
    assert_eq!(payloads, vec![vec![100], vec![101], vec![200]]);
}
