use pipewire_vircam::red::{fill_packed, fill_red, fill_solid};
use pipewire_vircam::{Format, Frame, Negotiated, Plane};

/// The planes of a red `width x height` frame, with one byte of padding behind each.
fn red(format: Format, width: u32, height: u32) -> Vec<Vec<u8>> {
    let layout = format.planes(width, height);
    let mut datas: Vec<Vec<u8>> = layout
        .iter()
        .map(|(stride, rows)| vec![7u8; (stride * rows) as usize + 1])
        .collect();
    let negotiated = Negotiated {
        format,
        width,
        height,
        fps_num: 30,
        fps_denom: 1,
        stride: layout[0].0,
        node_id: 0,
    };
    let planes: Vec<Plane> = datas
        .iter_mut()
        .zip(&layout)
        .map(|(data, (stride, rows))| Plane {
            stride: *stride,
            height: *rows,
            data,
        })
        .collect();
    let mut frame = Frame {
        width,
        height,
        format,
        fps_num: 30,
        fps_denom: 1,
        seq: 0,
        pts: 0,
        planes,
    };
    fill_red(&mut frame, &negotiated);
    drop(frame);
    datas
}

#[test]
fn packed_rgb_is_red() {
    assert_eq!(
        red(Format::Rgba, 2, 1),
        vec![vec![255, 0, 0, 255, 255, 0, 0, 255, 7]]
    );
    assert_eq!(
        red(Format::Bgra, 2, 1),
        vec![vec![0, 0, 255, 255, 0, 0, 255, 255, 7]]
    );
    assert_eq!(red(Format::Bgrx, 1, 1), vec![vec![0, 0, 255, 0, 7]]);
    assert_eq!(red(Format::Rgbx, 1, 1), vec![vec![255, 0, 0, 0, 7]]);
    assert_eq!(red(Format::Bgr, 1, 2), vec![vec![0, 0, 255, 0, 0, 255, 7]]);
    assert_eq!(red(Format::Rgb, 1, 1), vec![vec![255, 0, 0, 7]]);
}

#[test]
fn yuv_is_red() {
    assert_eq!(
        red(Format::I420, 2, 2),
        vec![vec![63, 63, 63, 63, 7], vec![104, 7], vec![240, 7]]
    );
    assert_eq!(
        red(Format::Nv12, 2, 2),
        vec![vec![63, 63, 63, 63, 7], vec![104, 240, 7]]
    );
    assert_eq!(
        red(Format::Nv21, 2, 2),
        vec![vec![63, 63, 63, 63, 7], vec![240, 104, 7]]
    );
    assert_eq!(red(Format::Yuy2, 2, 1), vec![vec![63, 104, 63, 240, 7]]);
    assert_eq!(red(Format::Uvyvy, 2, 1), vec![vec![104, 63, 240, 63, 7]]);
    assert_eq!(red(Format::Grey, 2, 1), vec![vec![63, 63, 7]]);
}

#[test]
fn every_row_starts_alike() {
    for f in Format::all() {
        let layout = f.planes(6, 4);
        for (data, (stride, rows)) in red(*f, 6, 4).iter().zip(layout) {
            let stride = stride as usize;
            for row in 1..rows as usize {
                assert_eq!(
                    data[..stride],
                    data[row * stride..(row + 1) * stride],
                    "{f:?}"
                );
            }
        }
    }
}

#[test]
fn pattern_is_cut_off_at_the_end() {
    let mut data = vec![9u8; 6];
    fill_packed(
        &mut Plane {
            stride: 5,
            height: 1,
            data: &mut data,
        },
        &[1, 2, 3],
    );
    assert_eq!(data, vec![1, 2, 3, 1, 2, 9]);
    fill_solid(
        &mut Plane {
            stride: 2,
            height: 2,
            data: &mut data,
        },
        5,
    );
    assert_eq!(data, vec![5, 5, 5, 5, 2, 9]);
    fill_packed(
        &mut Plane {
            stride: 0,
            height: 8,
            data: &mut data,
        },
        &[],
    );
    assert_eq!(data, vec![5, 5, 5, 5, 2, 9]);
}
