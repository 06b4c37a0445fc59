use texture_analyzer::{analyze_fields, analyze_texture, Channel, TextureError, TextureStats};

fn stats(total_pixels: usize, unique_colors: usize, dominant_color: (u8, u8, u8)) -> TextureStats {
    TextureStats { total_pixels, unique_colors, dominant_color }
}

#[test]
fn two_pixels_tied() {
    let s = analyze_texture("2,1,255,0,0,0,255,0").unwrap();
    assert_eq!(s.total_pixels, 2);
    assert_eq!(s.unique_colors, 2);
    assert!(s.dominant_color == (255, 0, 0) || s.dominant_color == (0, 255, 0));
}

#[test]
fn tie_goes_to_first_seen() {
    assert_eq!(analyze_texture("2,1,255,0,0,0,255,0"), Ok(stats(2, 2, (255, 0, 0))));
    assert_eq!(analyze_texture("2,1,0,255,0,255,0,0"), Ok(stats(2, 2, (0, 255, 0))));
}

#[test]
fn one_pixel() {
    assert_eq!(analyze_texture("1,1,10,20,30"), Ok(stats(1, 1, (10, 20, 30))));
}

#[test]
fn majority_color_dominates() {
    let s = analyze_texture("2,2,1,1,1,1,1,1,1,1,1,9,9,9").unwrap();
    assert_eq!(s.dominant_color, (1, 1, 1));
    assert_eq!(s.unique_colors, 2);
    assert_eq!(s.total_pixels, 4);
}

#[test]
fn majority_after_minority() {
    assert_eq!(analyze_texture("3,1,9,9,9,1,1,1,1,1,1"), Ok(stats(3, 2, (1, 1, 1))));
}

#[test]
fn too_few_fields() {
    assert_eq!(
        analyze_texture("2,2,1,2,3"),
        Err(TextureError::TokenCount { expected: 14, actual: 5 })
    );
}

#[test]
fn one_field_fewer_or_more() {
    assert_eq!(
        analyze_texture("1,1,1,2"),
        Err(TextureError::TokenCount { expected: 5, actual: 4 })
    );
    assert_eq!(
        analyze_texture("1,1,1,2,3,4"),
        Err(TextureError::TokenCount { expected: 5, actual: 6 })
    );
    assert!(analyze_texture("1,1,1,2,3").is_ok());
}

#[test]
fn well_formed_counts() {
    let s = analyze_texture("3,2,1,2,3,1,2,3,4,5,6,1,2,3,7,8,9,4,5,6").unwrap();
    assert_eq!(s.total_pixels, 6);
    assert_eq!(s.unique_colors, 3);
    assert!(s.unique_colors <= s.total_pixels);
    assert_eq!(s.dominant_color, (1, 2, 3));
}

#[test]
fn single_color_everywhere() {
    assert_eq!(analyze_texture("2,2,7,7,7,7,7,7,7,7,7,7,7,7"), Ok(stats(4, 1, (7, 7, 7))));
}

#[test]
fn zero_width_or_height() {
    assert_eq!(analyze_texture("0,5"), Ok(stats(0, 0, (0, 0, 0))));
    assert_eq!(analyze_texture("5,0"), Ok(stats(0, 0, (0, 0, 0))));
    assert_eq!(
        analyze_texture("0,5,1,2,3"),
        Err(TextureError::TokenCount { expected: 2, actual: 5 })
    );
}

#[test]
fn missing_dimensions() {
    assert_eq!(analyze_texture(""), Err(TextureError::MissingDimensions));
    assert_eq!(analyze_texture("12"), Err(TextureError::MissingDimensions));
    assert_eq!(analyze_texture("   \n"), Err(TextureError::MissingDimensions));
}

#[test]
fn invalid_dimensions() {
    assert_eq!(analyze_texture("x,1"), Err(TextureError::InvalidWidth));
    assert_eq!(analyze_texture("-1,1"), Err(TextureError::InvalidWidth));
    assert_eq!(analyze_texture(",1"), Err(TextureError::InvalidWidth));
    assert_eq!(analyze_texture("1,y"), Err(TextureError::InvalidHeight));
    assert_eq!(analyze_texture("1, 1,1,1,1"), Err(TextureError::InvalidHeight));
    assert_eq!(
        analyze_texture("99999999999999999999999999,1"),
        Err(TextureError::InvalidWidth)
    );
}

#[test]
fn dimensions_too_large() {
    let max = usize::MAX.to_string();
    assert_eq!(analyze_texture(&format!("{},2", max)), Err(TextureError::DimensionsTooLarge));
    let third = (usize::MAX / 3).to_string();
    assert_eq!(analyze_texture(&format!("{},1", third)), Err(TextureError::DimensionsTooLarge));
}

#[test]
fn channel_out_of_range() {
    assert_eq!(
        analyze_texture("1,1,256,0,0"),
        Err(TextureError::InvalidChannel { pixel: 0, channel: Channel::Red })
    );
    assert_eq!(
        analyze_texture("2,1,1,2,3,4,-1,6"),
        Err(TextureError::InvalidChannel { pixel: 1, channel: Channel::Green })
    );
    assert_eq!(
        analyze_texture("2,1,1,2,3,4,5,256"),
        Err(TextureError::InvalidChannel { pixel: 1, channel: Channel::Blue })
    );
}

#[test]
fn first_bad_channel_is_reported() {
    assert_eq!(
        analyze_texture("2,1,1,x,3,4,-1,6"),
        Err(TextureError::InvalidChannel { pixel: 0, channel: Channel::Green })
    );
}

#[test]
fn plus_sign_is_accepted() {
    assert_eq!(analyze_texture("+1,1,+5,0,255"), Ok(stats(1, 1, (5, 0, 255))));
    assert_eq!(
        analyze_texture("1,1,+,0,0"),
        Err(TextureError::InvalidChannel { pixel: 0, channel: Channel::Red })
    );
}

#[test]
fn surrounding_white_space_is_trimmed() {
    assert_eq!(analyze_texture("  1,1,10,20,30\n"), Ok(stats(1, 1, (10, 20, 30))));
    assert_eq!(analyze_texture("\u{3000}1,1,10,20,30\u{a0}"), Ok(stats(1, 1, (10, 20, 30))));
    assert_eq!(
        analyze_fields(b"1,1,10,20,30\n"),
        Err(TextureError::InvalidChannel { pixel: 0, channel: Channel::Blue })
    );
}

#[test]
fn fields_without_trimming() {
    assert_eq!(analyze_fields(b"1,1,10,20,30"), Ok(stats(1, 1, (10, 20, 30))));
    assert_eq!(analyze_fields(b" 1,1,10,20,30"), Err(TextureError::InvalidWidth));
}
