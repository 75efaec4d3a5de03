use histmatch::Channel;
use histmatch::ChannelsHistogram;
use histmatch::HistMatchError;
use histmatch::ImageChannels;
use histmatch::apply;
use histmatch::cdf;
use histmatch::cumwantsome;
use histmatch::equalize;
use histmatch::mapping;
use histmatch::match_histogram_rgb_array;

/// An interleaved buffer from a list of RGB triples.
fn interleave(pixels: &[(u8, u8, u8)]) -> Vec<u8> {
    let mut buf = Vec::new();
    for &(r, g, b) in pixels {
        buf.push(r);
        buf.push(g);
        buf.push(b);
    }
    buf
}

/// A 256x1 image whose pixel `i` is `(i, i, i)`: each channel histogram
/// is perfectly uniform over the whole 8-bit range.
fn uniform_image() -> ImageChannels {
    let mut buf = Vec::new();
    for i in 0..256u32 {
        buf.push(i as u8);
        buf.push(i as u8);
        buf.push(i as u8);
    }
    ImageChannels::new(buf, 256, 1).unwrap()
}

#[test]
fn shape_mismatch_is_rejected_at_ingestion() {
    assert_eq!(
        ImageChannels::new(vec![0u8; 4], 1, 1).err(),
        Some(HistMatchError::ShapeMismatch)
    );
    assert_eq!(
        ImageChannels::new(vec![0u8; 6], 1, 1).err(),
        Some(HistMatchError::ShapeMismatch)
    );
    assert!(ImageChannels::new(vec![0u8; 3], 1, 1).is_ok());
    assert!(ImageChannels::new(Vec::new(), 0, 7).is_ok());
}

#[test]
fn dimension_getters_report_the_shape() {
    let img = ImageChannels::new(vec![0u8; 12], 2, 2).unwrap();
    assert_eq!(img.get_width(), 2);
    assert_eq!(img.get_height(), 2);
}

#[test]
fn empty_source_reports_empty_image() {
    let mut source = ImageChannels::new(Vec::new(), 0, 0).unwrap();
    let reference = ImageChannels::new(vec![0u8; 3], 1, 1).unwrap();
    assert_eq!(
        match_histogram_rgb_array(&mut source, &reference),
        Err(HistMatchError::EmptyImage)
    );
}

#[test]
fn empty_reference_reports_empty_image_and_leaves_source_alone() {
    let mut source = ImageChannels::new(vec![9u8, 8, 7], 1, 1).unwrap();
    let reference = ImageChannels::new(Vec::new(), 0, 5).unwrap();
    assert_eq!(
        match_histogram_rgb_array(&mut source, &reference),
        Err(HistMatchError::EmptyImage)
    );
    assert_eq!(source.image, vec![9u8, 8, 7]);
}

#[test]
fn degenerate_reference_maps_everything_to_its_single_value() {
    // A black-and-white source against an all-black reference: both
    // extremes must land on the reference's only value, 0.
    let mut source =
        ImageChannels::new(interleave(&[(0, 0, 0), (255, 255, 255)]), 2, 1).unwrap();
    let reference = ImageChannels::new(interleave(&[(0, 0, 0), (0, 0, 0)]), 2, 1).unwrap();
    assert_eq!(match_histogram_rgb_array(&mut source, &reference), Ok(()));
    assert_eq!(source.image, interleave(&[(0, 0, 0), (0, 0, 0)]));
}

#[test]
fn uniform_reference_equalizes_the_source() {
    // Against a perfectly uniform reference the match reproduces the
    // classic equalization of the source: the two-level source spreads
    // to the levels its quantized cumulative frequencies point at.
    let mut source =
        ImageChannels::new(interleave(&[(0, 0, 0), (255, 255, 255)]), 2, 1).unwrap();
    let reference = uniform_image();
    assert_eq!(match_histogram_rgb_array(&mut source, &reference), Ok(()));
    assert_eq!(
        source.image,
        interleave(&[(127, 127, 127), (254, 254, 254)])
    );
}

#[test]
fn different_dimensions_still_match() {
    // 2x1 source against a 1x4 reference: only pixel counts matter.
    let mut source =
        ImageChannels::new(interleave(&[(0, 0, 0), (255, 255, 255)]), 2, 1).unwrap();
    let reference = ImageChannels::new(vec![0u8; 12], 1, 4).unwrap();
    assert_eq!(match_histogram_rgb_array(&mut source, &reference), Ok(()));
    assert_eq!(source.image, interleave(&[(0, 0, 0), (0, 0, 0)]));
}

#[test]
fn self_matching_uniform_image_is_near_identity() {
    // A uniform image against itself: every value maps to one with the
    // same quantized cumulative frequency. That is the value itself
    // everywhere except at the final plateau (levels 255 at positions
    // 254 and 255), where the smallest value of the plateau wins.
    let mut source = uniform_image();
    let reference = uniform_image();
    assert_eq!(match_histogram_rgb_array(&mut source, &reference), Ok(()));
    for i in 0..255usize {
        assert_eq!(source.image[3 * i], i as u8);
        assert_eq!(source.image[3 * i + 1], i as u8);
        assert_eq!(source.image[3 * i + 2], i as u8);
    }
    assert_eq!(source.image[3 * 255], 254);
    assert_eq!(source.image[3 * 255 + 1], 254);
    assert_eq!(source.image[3 * 255 + 2], 254);
}

#[test]
fn histogram_counts_every_sample_once() {
    let img = ImageChannels::new(
        interleave(&[(0, 10, 20), (0, 10, 21), (5, 10, 20), (0, 11, 20)]),
        4,
        1,
    )
    .unwrap();
    let h = ChannelsHistogram::from_image(&img);
    let r = h.get_channel(Channel::Red);
    let g = h.get_channel(Channel::Green);
    let b = h.get_channel(Channel::Blue);
    assert_eq!(r[0], 3);
    assert_eq!(r[5], 1);
    assert_eq!(g[10], 3);
    assert_eq!(g[11], 1);
    assert_eq!(b[20], 3);
    assert_eq!(b[21], 1);
    // Conservation: each channel's counts sum to the pixel count.
    assert_eq!(r.iter().sum::<u64>(), 4);
    assert_eq!(g.iter().sum::<u64>(), 4);
    assert_eq!(b.iter().sum::<u64>(), 4);
}

#[test]
fn cumwantsome_builds_inclusive_prefix_sums() {
    let arr = vec![1u64, 2, 3, 0, 4];
    assert_eq!(cumwantsome(&arr), vec![1u64, 3, 6, 6, 10]);
}

#[test]
fn cdf_of_zero_total_is_empty_image() {
    let hist = vec![0u64; 256];
    assert_eq!(cdf(&hist).err(), Some(HistMatchError::EmptyImage));
}

#[test]
fn cdf_and_equalize_follow_the_ceiling_formula() {
    // Bins 0 and 255 hold two samples each: the normalized distribution
    // is 1/2 up to value 254 and 1 at 255; ceiling of 255/2 is 128.
    let mut hist = vec![0u64; 256];
    hist[0] = 2;
    hist[255] = 2;
    let n = cdf(&hist).unwrap();
    assert_eq!(n.total, 4);
    assert_eq!(n.cum[0], 2);
    assert_eq!(n.cum[254], 2);
    assert_eq!(n.cum[255], 4);
    let q = equalize(&n);
    assert_eq!(q[0], 128);
    assert_eq!(q[254], 128);
    assert_eq!(q[255], 255);
    // The quantized sequence never decreases.
    for i in 1..256usize {
        assert!(q[i - 1] <= q[i]);
    }
}

#[test]
fn mapping_is_total_over_the_fixed_domain() {
    let src: Vec<u8> = (0..=255u8).collect();
    let rf = vec![37u8; 256];
    let table = mapping(&src, &rf);
    assert_eq!(table.len(), 256);
}

#[test]
fn mapping_of_identical_strict_cdfs_is_identity() {
    let levels: Vec<u8> = (0..=255u8).collect();
    let table = mapping(&levels, &levels);
    for v in 0..256usize {
        assert_eq!(table[v], v as u8);
    }
}

#[test]
fn mapping_prefers_upper_on_ties_and_takes_the_nearer_side() {
    let mut rf = vec![255u8; 256];
    rf[0] = 10;
    rf[1] = 20;
    let mut src = vec![0u8; 256];
    src[0] = 15; // equidistant from 10 and 20: the upper level, 20, wins
    src[1] = 14; // closer to 10 than to 20: the lower level wins
    src[2] = 19; // closer to 20: upper wins
    let table = mapping(&src, &rf);
    assert_eq!(table[0], 1);
    assert_eq!(table[1], 0);
    assert_eq!(table[2], 1);
}

#[test]
fn mapping_one_sided_lookups_take_the_existing_side() {
    let mut rf = vec![30u8; 256];
    rf[0] = 10;
    let mut src = vec![0u8; 256];
    src[0] = 5; // below every reference level: the upper side, 10 at 0
    src[1] = 200; // above every reference level: the lower side, 30 at 1
    let table = mapping(&src, &rf);
    assert_eq!(table[0], 0);
    assert_eq!(table[1], 1);
}

#[test]
fn mapping_plateaus_collapse_to_the_first_value() {
    // All reference levels equal: every source key resolves to the
    // smallest value of the plateau, position 0.
    let rf = vec![255u8; 256];
    let src: Vec<u8> = (0..=255u8).collect();
    let table = mapping(&src, &rf);
    for v in 0..256usize {
        assert_eq!(table[v], 0);
    }
}

#[test]
fn apply_remaps_each_channel_through_its_own_table() {
    let r_map = vec![1u8; 256];
    let g_map = vec![2u8; 256];
    let b_map = vec![3u8; 256];
    let mut buf = vec![0u8, 255, 7, 9, 1, 2];
    apply(&r_map, &g_map, &b_map, &mut buf);
    assert_eq!(buf, vec![1u8, 2, 3, 1, 2, 3]);
}
