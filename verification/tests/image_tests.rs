use intcode::image::{Image, Layer};

#[test]
fn covering_layer_with_transparent_layer_doesnt_change_the_layer() {
    let height = 3;
    let width = 3;

    let layer = Layer::new(vec![0, 1, 2, 2, 1, 0, 0, 1, 0], height, width);
    let transparent = Layer::transparent(height, width);

    assert_eq!(layer, layer.cover(&transparent))
}

#[test]
fn an_opaque_top_pixel_hides_the_bottom_one() {
    let bottom = Layer::new(vec![0, 0, 0, 0], 2, 2);
    let top = Layer::new(vec![1, 2, 2, 1], 2, 2);
    let expected = Layer::new(vec![1, 0, 0, 1], 2, 2);
    assert_eq!(expected, bottom.cover(&top));
}

#[test]
fn image_finds_the_layer_with_fewest_zeroes() {
    let mut image = Image::new(2, 3);
    assert_eq!(6, image.area());
    image.add_layer(vec![0, 0, 1, 2, 0, 1]);
    image.add_layer(vec![1, 1, 1, 2, 0, 1]);
    image.add_layer(vec![0, 1, 1, 2, 0, 1]);
    assert_eq!(1, image.layer_id_with_fewest_zeroes());
    assert_eq!(1, image.layer_by_id(0).digit_count(2));
    assert_eq!(4, image.layer_by_id(1).digit_count(1));
}

#[test]
fn stacking_layers_shows_the_topmost_opaque_pixel() {
    let mut image = Image::new(2, 2);
    image.add_layer(vec![0, 2, 2, 2]);
    image.add_layer(vec![1, 1, 2, 2]);
    image.add_layer(vec![2, 2, 1, 2]);
    image.add_layer(vec![0, 0, 0, 0]);
    let visible = image.cover_all_layers();
    assert_eq!(Layer::new(vec![0, 1, 1, 0], 2, 2), visible);
}
