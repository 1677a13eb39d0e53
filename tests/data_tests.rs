use zellij_ipc_pty::conpty::{ConPtySystem, PtySize};
use zellij_ipc_pty::messages::{PixelDimensions, SizeInPixels};

#[test]
fn merge_takes_only_known_parts() {
    let mut dims = PixelDimensions {
        text_area_size: Some(SizeInPixels { height: 10, width: 20 }),
        character_cell_size: None,
    };
    dims.merge(PixelDimensions {
        text_area_size: None,
        character_cell_size: Some(SizeInPixels { height: 2, width: 1 }),
    });
    assert_eq!(dims.text_area_size, Some(SizeInPixels { height: 10, width: 20 }));
    assert_eq!(dims.character_cell_size, Some(SizeInPixels { height: 2, width: 1 }));
    dims.merge(PixelDimensions {
        text_area_size: Some(SizeInPixels { height: 30, width: 40 }),
        character_cell_size: None,
    });
    assert_eq!(dims.text_area_size, Some(SizeInPixels { height: 30, width: 40 }));
    assert_eq!(dims.character_cell_size, Some(SizeInPixels { height: 2, width: 1 }));
}

#[test]
fn console_coord_is_columns_then_rows() {
    let sys = ConPtySystem {};
    let size = PtySize { rows: 24, cols: 80, pixel_width: 0, pixel_height: 0 };
    assert_eq!(sys.console_coord(size), (80, 24));
}

use zellij_ipc_pty::messages::ExitReason;

#[test]
fn exit_messages() {
    assert_eq!(ExitReason::Normal.message(None), "Bye from Zellij!");
    assert_eq!(ExitReason::NormalDetached.message(None), "Session detached");
    assert_eq!(ExitReason::KickedByHost.message(Some("s")), "Disconnected by host");
    assert_eq!(ExitReason::CustomExitStatus(3).message(None), "Exit 3");
    assert_eq!(ExitReason::CustomExitStatus(-12).message(None), "Exit -12");
    assert_eq!(
        ExitReason::CustomExitStatus(i32::MIN).message(None),
        format!("Exit {}", i32::MIN)
    );
    assert_eq!(
        ExitReason::Error("boom".to_string()).message(None),
        "Error occurred in server:\nboom"
    );
    assert_eq!(
        ExitReason::CannotAttach.message(None),
        "Session attached to another client. Use --force flag to force connect."
    );
}

#[test]
fn disconnect_message_names_the_session() {
    let with_name = ExitReason::Disconnect.message(Some("dev"));
    assert!(with_name.contains("      time: `zellij attach dev`\n"));
    assert!(with_name.starts_with("\nYour zellij client lost connection to the zellij server.\n"));
    assert!(with_name.ends_with("GPU-accelerated) terminal emulator\n    "));
    let without = ExitReason::Disconnect.message(None);
    assert!(without.contains("time: see `zellij ls` and `zellij attach`\n"));
}
