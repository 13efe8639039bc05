use reverse_search_bridge::decode::{decode_polytopes, Polytope};
use reverse_search_bridge::encode::{encode_count, encode_decomposition, encode_result};
use reverse_search_bridge::error::BridgeError;
use reverse_search_bridge::session::Session;

fn sequential(n: usize) -> Vec<f64> {
    (0..n).map(|x| x as f64).collect()
}

fn coords(p: &Polytope<f64>) -> Vec<Vec<f64>> {
    p.vertices.clone()
}

/// One emitted result of a scripted engine: parameters and decomposition labels.
type Scripted = (Vec<f64>, Vec<usize>);

/// A deterministic engine: hands each scripted result to the session, runs the
/// callback when the result encodes, and stops at the first failure of the sink.
/// Returns the pass result, the callback invocations, and how many results the
/// engine handed to the sink.
fn run_scripted(
    script: &[Scripted],
    callback_fails_at: Option<usize>,
) -> (Result<(), BridgeError>, Vec<(Vec<f32>, Vec<u8>)>, usize) {
    let mut session: Session<f32> = Session::new();
    let mut calls: Vec<(Vec<f32>, Vec<u8>)> = Vec::new();
    let mut handed = 0usize;
    let mut engine: Result<(), String> = Ok(());
    for (params, labels) in script {
        assert!(session.is_ready());
        handed += 1;
        let narrowed: Vec<f32> = params.iter().map(|&x| x as f32).collect();
        match session.on_result(narrowed, labels) {
            Ok(encoded) => {
                assert!(session.is_awaiting_callback());
                let ok = callback_fails_at != Some(calls.len());
                calls.push((encoded.params, encoded.decomposition));
                if let Err(e) = session.on_callback_returned(ok) {
                    engine = Err(format!("{:?}", e));
                    break;
                }
            }
            Err(e) => {
                engine = Err(format!("{:?}", e));
                break;
            }
        }
    }
    (session.finish(engine), calls, handed)
}

#[test]
fn decode_rebuilds_sequential_buffer() {
    let data = sequential(12);
    let polys = decode_polytopes(&data, 2, 3, 2).unwrap();
    assert_eq!(polys.len(), 2);
    assert_eq!(coords(&polys[0]), vec![vec![0.0, 1.0], vec![2.0, 3.0], vec![4.0, 5.0]]);
    assert_eq!(coords(&polys[1]), vec![vec![6.0, 7.0], vec![8.0, 9.0], vec![10.0, 11.0]]);
}

#[test]
fn decode_three_dimensional_layout() {
    let data = sequential(12);
    let polys = decode_polytopes(&data, 2, 2, 3).unwrap();
    assert_eq!(coords(&polys[0]), vec![vec![0.0, 1.0, 2.0], vec![3.0, 4.0, 5.0]]);
    assert_eq!(coords(&polys[1]), vec![vec![6.0, 7.0, 8.0], vec![9.0, 10.0, 11.0]]);
}

#[test]
fn decode_rejects_short_and_long_buffers() {
    for n in [0usize, 11, 13, 24] {
        let data = sequential(n);
        assert_eq!(
            decode_polytopes(&data, 2, 3, 2).err(),
            Some(BridgeError::InputShapeMismatch { num_polytopes: 2, num_vertices: 3, dim: 2, len: n })
        );
    }
}

#[test]
fn decode_rejects_shape_whose_size_overflows() {
    let data = sequential(4);
    assert_eq!(
        decode_polytopes(&data, usize::MAX, 2, 2).err(),
        Some(BridgeError::InputShapeMismatch { num_polytopes: usize::MAX, num_vertices: 2, dim: 2, len: 4 })
    );
    assert_eq!(
        decode_polytopes(&data, 2, usize::MAX / 2 + 1, 2).err(),
        Some(BridgeError::InputShapeMismatch {
            num_polytopes: 2,
            num_vertices: usize::MAX / 2 + 1,
            dim: 2,
            len: 4
        })
    );
}

#[test]
fn decode_empty_shapes() {
    let empty: Vec<f64> = Vec::new();
    assert_eq!(decode_polytopes(&empty, 0, 3, 2).unwrap().len(), 0);
    let polys = decode_polytopes(&empty, 2, 3, 0).unwrap();
    assert_eq!(polys.len(), 2);
    for p in &polys {
        assert_eq!(p.vertices.len(), 3);
        assert!(p.vertices.iter().all(|v| v.is_empty()));
    }
}

#[test]
fn decode_twice_gives_equal_collections() {
    let data: Vec<f64> = (0..24).map(|x| (x as f64) * 0.5 - 3.0).collect();
    let first = decode_polytopes(&data, 2, 4, 3).unwrap();
    let second = decode_polytopes(&data, 2, 4, 3).unwrap();
    assert_eq!(first.len(), second.len());
    for (a, b) in first.iter().zip(second.iter()) {
        assert_eq!(a.vertices, b.vertices);
    }
}

#[test]
fn count_fits_in_32_bits() {
    assert_eq!(encode_count(0), Ok(0));
    assert_eq!(encode_count(5), Ok(5));
    assert_eq!(encode_count(u32::MAX as usize), Ok(u32::MAX));
}

#[test]
fn count_overflow_past_32_bits() {
    let len = u32::MAX as usize + 1;
    assert_eq!(encode_count(len), Err(BridgeError::CountOverflow { len }));
    assert_eq!(encode_count(usize::MAX), Err(BridgeError::CountOverflow { len: usize::MAX }));
}

#[test]
fn decomposition_narrows_labels() {
    assert_eq!(encode_decomposition(&vec![0, 1, 17, 255]), Ok(vec![0u8, 1, 17, 255]));
    assert_eq!(encode_decomposition(&Vec::new()), Ok(Vec::new()));
}

#[test]
fn label_256_overflows() {
    assert_eq!(
        encode_decomposition(&vec![3, 256, 1]),
        Err(BridgeError::LabelOverflow { index: 1, value: 256 })
    );
}

#[test]
fn first_oversized_label_is_reported() {
    assert_eq!(
        encode_decomposition(&vec![1, 2, 300, 1000]),
        Err(BridgeError::LabelOverflow { index: 2, value: 300 })
    );
}

#[test]
fn result_keeps_params_and_narrows_decomposition() {
    let r = encode_result(vec![1.5f32, -2.0], &vec![4, 200]).unwrap();
    assert_eq!(r.params, vec![1.5f32, -2.0]);
    assert_eq!(r.decomposition, vec![4u8, 200]);
    assert_eq!(
        encode_result(vec![0.0f32], &vec![256]).err(),
        Some(BridgeError::LabelOverflow { index: 0, value: 256 })
    );
}

#[test]
fn label_overflow_skips_callback() {
    let script: Vec<Scripted> = vec![(vec![0.25, 0.75], vec![1, 256])];
    let (result, calls, handed) = run_scripted(&script, None);
    assert_eq!(result, Err(BridgeError::LabelOverflow { index: 1, value: 256 }));
    assert!(calls.is_empty());
    assert_eq!(handed, 1);
}

#[test]
fn callbacks_follow_emission_order() {
    let script: Vec<Scripted> = vec![
        (vec![1.0, 2.0], vec![0, 1]),
        (vec![3.0, 4.0], vec![2]),
        (vec![5.0, 6.0], vec![3, 4, 5]),
    ];
    let (result, calls, handed) = run_scripted(&script, None);
    assert_eq!(result, Ok(()));
    assert_eq!(handed, 3);
    assert_eq!(
        calls,
        vec![
            (vec![1.0f32, 2.0], vec![0u8, 1]),
            (vec![3.0f32, 4.0], vec![2u8]),
            (vec![5.0f32, 6.0], vec![3u8, 4, 5]),
        ]
    );
}

#[test]
fn failure_on_third_of_five_stops_after_two_callbacks() {
    let script: Vec<Scripted> = vec![
        (vec![1.0], vec![1]),
        (vec![2.0], vec![2]),
        (vec![3.0], vec![7, 256]),
        (vec![4.0], vec![4]),
        (vec![5.0], vec![5]),
    ];
    let (result, calls, handed) = run_scripted(&script, None);
    assert_eq!(result, Err(BridgeError::LabelOverflow { index: 1, value: 256 }));
    assert_eq!(calls.len(), 2);
    assert_eq!(calls[0], (vec![1.0f32], vec![1u8]));
    assert_eq!(calls[1], (vec![2.0f32], vec![2u8]));
    assert_eq!(handed, 3);
}

#[test]
fn callback_failure_is_reported_and_stops() {
    let script: Vec<Scripted> = vec![(vec![1.0], vec![1]), (vec![2.0], vec![2]), (vec![3.0], vec![3])];
    let (result, calls, handed) = run_scripted(&script, Some(1));
    assert_eq!(result, Err(BridgeError::CallbackInvocationFailed));
    assert_eq!(calls.len(), 2);
    assert_eq!(handed, 2);
}

#[test]
fn engine_failure_is_reported() {
    let session: Session<f32> = Session::new();
    assert_eq!(
        session.finish(Err("no vertex".to_string())),
        Err(BridgeError::EngineFailure { message: "no vertex".to_string() })
    );
}

#[test]
fn empty_pass_succeeds() {
    let session: Session<f32> = Session::new();
    assert!(session.is_ready());
    assert!(!session.is_awaiting_callback());
    assert_eq!(session.finish(Ok(())), Ok(()));
}

#[test]
fn first_failure_wins_over_engine_report() {
    let mut session: Session<f32> = Session::new();
    assert!(session.on_result(vec![0.0], &vec![999]).is_err());
    assert!(!session.is_ready());
    assert_eq!(
        session.finish(Err("aborted by sink".to_string())),
        Err(BridgeError::LabelOverflow { index: 0, value: 999 })
    );
}

#[test]
fn duplicate_keeps_every_variant() {
    let errors = vec![
        BridgeError::InputShapeMismatch { num_polytopes: 1, num_vertices: 2, dim: 3, len: 4 },
        BridgeError::CountOverflow { len: 9 },
        BridgeError::LabelOverflow { index: 5, value: 700 },
        BridgeError::CallbackInvocationFailed,
        BridgeError::EngineFailure { message: "cycle".to_string() },
    ];
    for e in &errors {
        assert_eq!(&e.duplicate(), e);
    }
}
