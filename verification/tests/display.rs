use base64::Engine;
use turicraft::display::{
    kde_display, mac_display, xrandr_display,
    detect, edid_vrr_capable, float_text, kde_current_mode, kde_primary, kde_vrr_active, mac_height, mac_main, mac_rate,
    windows_screen, xrandr_primary, KdeOutput,
};

/// Minimal EDID: base block + a CTA extension holding one vendor-specific
/// block with the given OUI.
fn edid_with_vsdb(oui: [u8; 3]) -> Vec<u8> {
    let mut e = vec![0u8; 256];
    e[126] = 1;
    let ext = &mut e[128..];
    ext[0] = 0x02;
    ext[1] = 0x03;
    ext[2] = 4 + 1 + 5;
    ext[4] = (3 << 5) | 5;
    ext[5..8].copy_from_slice(&oui);
    e
}

#[test]
fn vrr_dans_l_edid() {
    assert!(edid_vrr_capable(&edid_with_vsdb([0x1A, 0x00, 0x00])));
    assert!(edid_vrr_capable(&edid_with_vsdb([0x4B, 0x04, 0x00])));
    // HDMI (OUI 0x000C03): nothing to do with VRR
    assert!(!edid_vrr_capable(&edid_with_vsdb([0x03, 0x0C, 0x00])));
    assert!(!edid_vrr_capable(&[0u8; 128]));
}

#[test]
fn les_vrais_ecrans_de_cette_machine() {
    // Informative: nothing reported by the system gives the unknown screen.
    let d = detect(None);
    println!("{d:?}");
}

#[test]
fn displayid_adaptive_sync() {
    let mut e = vec![0u8; 256];
    e[128] = 0x70;
    e[130] = 6;
    e[133] = 0x22; // a block of 0 bytes
    e[136] = 0x2B; // Adaptive-Sync
    assert!(edid_vrr_capable(&e));
    e[136] = 0x00;
    assert!(!edid_vrr_capable(&e));
}

#[test]
fn vrr_in_a_later_or_truncated_extension() {
    let mut e = edid_with_vsdb([0x03, 0x0C, 0x00]);
    let second = edid_with_vsdb([0x1A, 0x00, 0x00]);
    e.extend_from_slice(&second[128..]);
    assert!(edid_vrr_capable(&e));
    // the block list ends at ext[2]: with no room for a block, nothing is read
    let mut f = edid_with_vsdb([0x1A, 0x00, 0x00]);
    f[130] = 4;
    assert!(!edid_vrr_capable(&f));
    // a truncated extension is read as far as it goes
    assert!(!edid_vrr_capable(&edid_with_vsdb([0x1A, 0x00, 0x00])[..130]));
}

const XRANDR: &str = "Screen 0: minimum 320 x 200, current 4480 x 1440, maximum 16384 x 16384
DP-1 connected 1920x1080+2560+0 (normal left inverted right x axis y axis) 527mm x 296mm
   1920x1080     60.00 +  74.97    59.94  
DP-2 connected primary 2560x1440+0+0 (normal left inverted right x axis y axis) 597mm x 336mm
   2560x1440     59.95 +  143.97*   120.00  
   1920x1080     60.00*  
HDMI-1 disconnected (normal left inverted right x axis y axis)
";

#[test]
fn xrandr_primary_output_and_current_mode() {
    let s = xrandr_primary(XRANDR).unwrap();
    assert_eq!(s.name, "DP-2");
    assert_eq!(s.height_px, Some(1440));
    // the first current mode of the primary output counts, marks removed
    assert_eq!(s.refresh.as_deref(), Some("143.97"));
}

#[test]
fn xrandr_without_primary_or_mode() {
    assert!(xrandr_primary("DP-1 connected 1920x1080+0+0\n   1920x1080 60.00*+\n").is_none());
    let s = xrandr_primary("eDP-1 connected primary 1366x768+0+0\n   1366x768 60.00+\n").unwrap();
    assert_eq!(s.name, "eDP-1");
    assert_eq!(s.height_px, None);
    assert_eq!(s.refresh, None);
    // a rate that does not read as a number leaves the next current mode its chance
    let s = xrandr_primary("X connected primary\n   800x600i *\n   1024x768 75.0*\n").unwrap();
    assert_eq!(s.height_px, Some(768));
    assert_eq!(s.refresh.as_deref(), Some("75.0"));
}

fn edid_b64(oui: [u8; 3]) -> String {
    base64::engine::general_purpose::STANDARD.encode(edid_with_vsdb(oui))
}

#[test]
fn windows_query_read() {
    let out = format!("144;1440|{},{}\r\n", edid_b64([0x1A, 0x00, 0x00]), edid_b64([0x4B, 0x04, 0x00]));
    let d = windows_screen(&out).unwrap();
    assert_eq!(d.refresh_hz, Some(144));
    assert_eq!(d.height_px, Some(1440));
    assert!(d.vrr_capable && d.vrr_active);
    assert_eq!(d.source, "Windows");
    // one screen without VRR: not capable
    let out = format!("60;1080|{},{}", edid_b64([0x1A, 0x00, 0x00]), edid_b64([0x03, 0x0C, 0x00]));
    assert!(!windows_screen(&out).unwrap().vrr_capable);
    // no EDID at all, or none that decodes: not capable
    let d = windows_screen("60;|").unwrap();
    assert_eq!((d.refresh_hz, d.height_px, d.vrr_capable), (Some(60), None, false));
    assert!(!windows_screen("60;1080|!!!,").unwrap().vrr_capable);
    // no height given
    let d = windows_screen(" 75|").unwrap();
    assert_eq!((d.refresh_hz, d.height_px), (Some(75), None));
    assert!(windows_screen("144;1440").is_none());
}

#[test]
fn numbers_as_std_reads_them() {
    for ok in ["143.97", "60", "1e5", "1E+3", "inf", "-Infinity", "NaN", ".5", "5.", "+0.0"] {
        assert!(float_text(ok), "{ok}");
        assert!(ok.parse::<f64>().is_ok());
    }
    for bad in ["", ".", "1.2.3", "12a", "+-1", "1e", "e5", " 1", "143.97*", "infinit"] {
        assert!(!float_text(bad), "{bad}");
        assert!(bad.parse::<f64>().is_err());
    }
}

fn output(enabled: Option<bool>, priority: Option<u64>, name: &str) -> KdeOutput {
    KdeOutput {
        enabled,
        priority,
        name: Some(name.to_string()),
        current_mode: Some("3".into()),
        mode_ids: vec![Some("1".into()), None, Some("3".into()), Some("3".into())],
        vrr_policy: Some(2),
    }
}

#[test]
fn kde_main_screen() {
    let outs = vec![
        output(Some(false), Some(1), "eDP-1"),
        output(Some(true), Some(2), "DP-1"),
        output(Some(true), None, "HDMI-1"),
        output(Some(true), Some(2), "DP-2"),
    ];
    assert_eq!(kde_primary(&outs), Some(1));
    assert_eq!(kde_primary(&outs[2..].to_vec()), Some(1));
    assert_eq!(kde_primary(&vec![output(None, Some(1), "x")]), None);
    assert_eq!(kde_current_mode(&outs[1]), Some(2));
    let mut o = output(Some(true), Some(1), "x");
    o.current_mode = None;
    assert_eq!(kde_current_mode(&o), None);
    o.mode_ids.push(Some(String::new()));
    assert_eq!(kde_current_mode(&o), Some(4));
    assert!(kde_vrr_active(true, Some(2)));
    assert!(!kde_vrr_active(true, Some(0)));
    assert!(!kde_vrr_active(true, None));
    assert!(!kde_vrr_active(false, Some(1)));
}

#[test]
fn mac_main_screen() {
    assert_eq!(mac_main(&vec![]), None);
    assert_eq!(mac_main(&vec![None, Some("spdisplays_no".into())]), Some(0));
    assert_eq!(mac_main(&vec![None, Some("spdisplays_yes".into()), Some("spdisplays_yes".into())]), Some(1));
    assert_eq!(mac_rate("2560 x 1440 @ 144.00Hz").as_deref(), Some("144.00"));
    assert_eq!(mac_rate("3024 x 1964 Retina"), None);
    assert_eq!(mac_rate("x @ ProMotion"), None);
    assert_eq!(mac_height("3024 x 1964"), Some(1964));
    assert_eq!(mac_height("2560 x 1440 @ 144.00Hz"), Some(1440));
    assert_eq!(mac_height("Retina"), None);
}

#[test]
fn screens_as_each_system_reports_them() {
    let k = kde_display(Some(144), Some(1440), true, Some(2), "DP-1");
    assert!(k.vrr_capable && k.vrr_active);
    assert_eq!(k.source, "KDE, écran DP-1");
    assert!(!kde_display(Some(144), None, true, Some(0), "DP-1").vrr_active);
    assert!(!kde_display(Some(144), None, false, Some(1), "DP-1").vrr_active);
    let x = xrandr_display(Some(60), Some(1080), true, "HDMI-1");
    assert!(x.vrr_capable && !x.vrr_active);
    assert_eq!(x.source, "xrandr, écran HDMI-1");
    let m = mac_display(Some(120), Some(1964));
    assert!(!m.vrr_capable && !m.vrr_active);
    assert_eq!((m.refresh_hz, m.height_px, m.source.as_str()), (Some(120), Some(1964), "macOS"));
}
