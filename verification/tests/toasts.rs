use paleta::toasts;

#[test]
fn success_markup_escapes_message() {
    assert_eq!(
        toasts::success_toast_markup("Saved!", "New palette: «a<b & c>»"),
        "<span foreground=\"#57e389\">Saved!</span> New palette: «a&lt;b &amp; c>»"
    );
}

#[test]
fn error_markup_escapes_message() {
    assert_eq!(
        toasts::error_toast_markup("Unable to add color #<>&."),
        "<span foreground=\"#c01c28\">Error!</span> Unable to add color #&lt;>&amp;."
    );
    assert_eq!(toasts::error_toast_markup("plain"), "<span foreground=\"#c01c28\">Error!</span> plain");
}

#[test]
fn color_messages() {
    assert_eq!(toasts::color_markup("#FF0000"), "<span foreground=\"#FF0000\">#FF0000</span>");
    assert_eq!(
        toasts::add_color_toast_text("#FF0000", "Warm"),
        "Added color <span foreground=\"#FF0000\">#FF0000</span> to palette «Warm»."
    );
    assert_eq!(
        toasts::remove_color_toast_text("#00FF00", "Cold"),
        "Removed color <span foreground=\"#00FF00\">#00FF00</span> from palette «Cold»."
    );
    assert_eq!(
        toasts::copy_color_toast_text("#0000FF"),
        "Copied color <span foreground=\"#0000FF\">#0000FF</span> to clipboard!"
    );
}

#[test]
fn image_messages() {
    assert_eq!(
        toasts::open_image_toast_text("/home/me/Pictures/cat.png"),
        "<span foreground=\"#57e389\">Opened image:</span> cat.png"
    );
    assert_eq!(toasts::open_image_toast_text("cat.png"), "<span foreground=\"#57e389\">Opened image:</span> cat.png");
    assert_eq!(
        toasts::error_image_toast_text("/tmp/shots/dog.jpg"),
        "Could not open image: dog.jpg"
    );
}

#[test]
fn offered_names() {
    assert_eq!(toasts::default_palette_name(0), "Palette #1");
    assert_eq!(toasts::default_palette_name(41), "Palette #42");
    assert_eq!(toasts::duplicate_palette_name("Warm"), "Warm duplicate");
    assert_eq!(toasts::chosen_name(String::new(), "Palette #3".to_string()), "Palette #3");
    assert_eq!(toasts::chosen_name("Mine".to_string(), "Palette #3".to_string()), "Mine");
}
