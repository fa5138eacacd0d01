use gimp::compose::composite_layers;
use gimp::layer::{layer_filename, Layer, LayerMetadata, Project};

#[test]
fn io_test_layer_creation() {
    let layer = Layer::from_rgba("test".to_string(), 100, 100, vec![255; 40000]);
    assert_eq!(layer.width, 100);
    assert_eq!(layer.height, 100);
    assert_eq!(layer.pixels.len(), 40000);
}

#[test]
fn io_tests_test_layer_creation() {
    let layer = Layer::from_rgba("test".to_string(), 100, 100, vec![255; 40000]);
    assert_eq!(layer.width, 100);
    assert_eq!(layer.height, 100);
    assert_eq!(layer.pixels.len(), 40000);
    assert_eq!(layer.name, "test");
}

#[test]
fn test_project_creation() {
    let mut project = Project::new("TestProject".to_string(), 800, 600);
    project.add_layer_metadata("Layer 0".to_string(), "layer_000.png".to_string());
    assert_eq!(project.layers.len(), 1);
    assert_eq!(project.width, 800);
    assert_eq!(project.height, 600);
}

#[test]
fn test_composite_layers() {
    let layer1 = Layer::from_rgba("layer1".to_string(), 100, 100, vec![255; 40000]);
    let layer2 = Layer::from_rgba("layer2".to_string(), 100, 100, vec![0; 40000]);

    let composite = composite_layers(100, 100, &[layer1, layer2]);
    assert_eq!(composite.len(), 40000);
    // Result should have some blend of both layers
    assert!(!composite.is_empty());
}

#[test]
fn composite_of_no_layers_is_white() {
    let image = composite_layers(3, 2, &[]);
    assert_eq!(image, vec![255u8; 24]);
}

#[test]
fn composite_blends_by_alpha_and_truncates() {
    let mut below = Layer::new("below".to_string(), 2, 1);
    below.set_pixel(0, 0, [100, 100, 100, 255]);
    below.set_pixel(1, 0, [100, 100, 100, 255]);
    let above = Layer::from_rgba("above".to_string(), 1, 1, vec![200, 0, 50, 128]);
    let image = composite_layers(2, 1, &[below, above]);
    // (200*128 + 100*127) / 255 = 150, (0*128 + 100*127) / 255 = 49,
    // (50*128 + 100*127) / 255 = 74, all rounded down.
    assert_eq!(image, vec![150, 49, 74, 255, 100, 100, 100, 255]);
}

#[test]
fn composite_skips_hidden_layers_and_clips() {
    let mut hidden = Layer::from_rgba("hidden".to_string(), 1, 1, vec![0, 0, 0, 255]);
    hidden.visible = false;
    let wide = Layer::from_rgba("wide".to_string(), 3, 1, vec![10, 20, 30, 255, 40, 50, 60, 255, 70, 80, 90, 255]);
    let image = composite_layers(2, 2, &[hidden, wide]);
    assert_eq!(
        image,
        vec![10, 20, 30, 255, 40, 50, 60, 255, 255, 255, 255, 255, 255, 255, 255, 255]
    );
}

#[test]
fn composite_skips_pixels_that_a_short_layer_lacks() {
    // A 2 by 1 layer with the bytes of one pixel only.
    let short = Layer::from_rgba("short".to_string(), 2, 1, vec![1, 2, 3, 255]);
    let image = composite_layers(2, 1, &[short]);
    assert_eq!(image, vec![1, 2, 3, 255, 255, 255, 255, 255]);
}

#[test]
fn layer_new_is_white_and_visible() {
    let layer = Layer::new("fresh".to_string(), 3, 2);
    assert_eq!(layer.name, "fresh");
    assert!(layer.visible);
    assert_eq!(layer.pixels, vec![255u8; 24]);
}

#[test]
fn layer_set_and_get_pixel() {
    let mut layer = Layer::new("l".to_string(), 3, 2);
    layer.set_pixel(2, 1, [1, 2, 3, 4]);
    assert_eq!(layer.get_pixel(2, 1), [1, 2, 3, 4]);
    assert_eq!(&layer.pixels[20..24], &[1, 2, 3, 4]);
    assert_eq!(layer.get_pixel(0, 0), [255, 255, 255, 255]);
    // Outside the layer: nothing is written, and transparent black is read.
    layer.set_pixel(3, 0, [9, 9, 9, 9]);
    layer.set_pixel(0, 2, [9, 9, 9, 9]);
    assert_eq!(layer.get_pixel(3, 0), [0, 0, 0, 0]);
    assert_eq!(layer.get_pixel(0, 2), [0, 0, 0, 0]);
    assert_eq!(layer.pixels.iter().filter(|b| **b == 9).count(), 0);
}

#[test]
fn layer_access_checks_the_buffer_length() {
    let mut layer = Layer::from_rgba("short".to_string(), 2, 2, vec![7; 6]);
    assert_eq!(layer.get_pixel(0, 0), [7, 7, 7, 7]);
    assert_eq!(layer.get_pixel(1, 0), [0, 0, 0, 0]);
    layer.set_pixel(1, 0, [1, 1, 1, 1]);
    assert_eq!(layer.pixels, vec![7; 6]);
}

#[test]
fn layer_resize_keeps_the_flat_bytes() {
    let mut layer = Layer::from_rgba("l".to_string(), 1, 1, vec![1, 2, 3, 4]);
    layer.resize(2, 1);
    assert_eq!(layer.width, 2);
    assert_eq!(layer.height, 1);
    assert_eq!(layer.pixels, vec![1, 2, 3, 4, 255, 255, 255, 255]);
    layer.resize(1, 1);
    assert_eq!(layer.pixels, vec![1, 2, 3, 4]);
    layer.resize(0, 5);
    assert!(layer.pixels.is_empty());
}

#[test]
fn layer_clear_repeats_the_colour() {
    let mut layer = Layer::new("l".to_string(), 2, 1);
    layer.clear([1, 2, 3, 4]);
    assert_eq!(layer.pixels, vec![1, 2, 3, 4, 1, 2, 3, 4]);
}

#[test]
fn layer_takes_metadata() {
    let mut layer = Layer::new("imported".to_string(), 1, 1);
    let meta = LayerMetadata { name: "Sky".to_string(), visible: false, filename: "layer_000.png".to_string() };
    layer.apply_metadata(&meta);
    assert_eq!(layer.name, "Sky");
    assert!(!layer.visible);
    assert_eq!(layer.pixels, vec![255; 4]);
}

#[test]
fn layer_is_complete_when_the_buffer_holds_the_image() {
    assert!(Layer::from_rgba("a".to_string(), 2, 2, vec![0; 16]).is_complete());
    assert!(Layer::from_rgba("a".to_string(), 2, 2, vec![0; 20]).is_complete());
    assert!(!Layer::from_rgba("a".to_string(), 2, 2, vec![0; 15]).is_complete());
}

#[test]
fn project_lists_layers_in_order() {
    let mut project = Project::new("P".to_string(), 4, 3);
    assert_eq!(project.name, "P");
    assert!(project.layers.is_empty());
    project.add_layer_metadata("a".to_string(), "layer_000.png".to_string());
    project.add_layer_metadata("b".to_string(), "layer_001.png".to_string());
    assert_eq!(project.layers.len(), 2);
    assert_eq!(project.layers[0].name, "a");
    assert_eq!(project.layers[1].name, "b");
    assert_eq!(project.layers[1].filename, "layer_001.png");
    assert!(project.layers[0].visible && project.layers[1].visible);
}

#[test]
fn layer_files_are_numbered_with_three_digits() {
    assert_eq!(layer_filename(0), "layer_000.png");
    assert_eq!(layer_filename(7), "layer_007.png");
    assert_eq!(layer_filename(12), "layer_012.png");
    assert_eq!(layer_filename(999), "layer_999.png");
    assert_eq!(layer_filename(1234), "layer_1234.png");
}
