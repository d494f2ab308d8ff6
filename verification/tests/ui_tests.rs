use duckdns_updater::config::AppConfig;
use duckdns_updater::icon::{icon_rgba, tray_icon_rgba, ICON_SIZE};
use duckdns_updater::ui::{
    any_mentions, apply_autostart_outcome, autostart_error_text, background_failure_text, background_success_notice,
    background_success_text, countdown_remaining,
    countdown_text, csv_exported_text, settings_saved_text, status_tone, updated_text, StatusTone,
    UiStatus, UiUpdateMsg,
};
use duckdns_updater::update::UpdateResult;

#[test]
fn finished_messages_from_outcomes() {
    let ok: Result<UpdateResult, String> = Ok(UpdateResult {
        success: false,
        ipv4: Some("1.2.3.4".to_string()),
        ipv6: None,
        ip_changed: true,
        _response: "KO".to_string(),
    });
    match UiUpdateMsg::from_outcome(&ok) {
        UiUpdateMsg::Finished { success, message, ip_changed } => {
            assert!(success);
            assert_eq!(message, "Atualizado! IPv4: 1.2.3.4 | IPv6: N/A");
            assert!(ip_changed);
        }
        UiUpdateMsg::Started => panic!("wrong message"),
    }
    let err: Result<UpdateResult, String> = Err("sem rede".to_string());
    match UiUpdateMsg::from_outcome(&err) {
        UiUpdateMsg::Finished { success, message, ip_changed } => {
            assert!(!success);
            assert_eq!(message, "Falha: sem rede");
            assert!(!ip_changed);
        }
        UiUpdateMsg::Started => panic!("wrong message"),
    }
}

#[test]
fn status_follows_the_round() {
    let mut s = UiStatus::new();
    assert!(!s.is_updating);
    assert_eq!(s.status_message, "Pronto.");
    assert!(s.can_start_update());
    assert_eq!(s.apply(UiUpdateMsg::Started), None);
    assert!(s.is_updating);
    assert!(!s.can_start_update());
    assert_eq!(s.status_message, "Atualizando IP no DuckDNS...");
    let r = s.apply(UiUpdateMsg::Finished {
        success: false,
        message: "Falha: x".to_string(),
        ip_changed: false,
    });
    assert_eq!(r, Some(false));
    assert!(!s.is_updating);
    assert_eq!(s.status_message, "Falha: x");
}

#[test]
fn status_tones() {
    assert_eq!(status_tone("Falha: x"), StatusTone::Error);
    assert_eq!(status_tone("Erro ao salvar: y"), StatusTone::Error);
    assert_eq!(status_tone("Configurações salvas com sucesso!"), StatusTone::Success);
    assert_eq!(status_tone("Atualizado! IPv4: N/A | IPv6: N/A"), StatusTone::Success);
    assert_eq!(status_tone("Pronto."), StatusTone::Info);
}

#[test]
fn message_texts() {
    assert_eq!(
        background_success_text(&Some("1.1.1.1".to_string()), &Some("::1".to_string())),
        "Atualizado com sucesso!\nIPv4: 1.1.1.1\nIPv6: ::1"
    );
    assert_eq!(updated_text(&None, &None), "Atualizado! IPv4: N/A | IPv6: N/A");
    assert_eq!(background_failure_text("x"), "Falha na atualização: x");
    assert_eq!(autostart_error_text("e"), "Erro ao configurar auto-start: e");
    assert_eq!(settings_saved_text(&Ok(())), "Configurações salvas com sucesso!");
    assert_eq!(settings_saved_text(&Err("disco".to_string())), "Erro ao salvar: disco");
    assert_eq!(csv_exported_text("C:\\x.csv"), "CSV exportado: C:\\x.csv");
}

#[test]
fn countdown() {
    assert_eq!(countdown_remaining(1800, 95), 1705);
    assert_eq!(countdown_remaining(60, 61), 0);
    assert_eq!(countdown_text(1705), "28min 25s");
    assert_eq!(countdown_text(5), "0min 05s");
    assert_eq!(countdown_text(0), "0min 00s");
    let rem = countdown_remaining(1800, 95);
    assert_eq!(format!("{}min {:02}s", rem / 60, rem % 60), countdown_text(rem));
}

#[test]
fn icon_is_a_blue_disc() {
    let rgba = icon_rgba();
    assert_eq!(rgba.len(), (ICON_SIZE * ICON_SIZE * 4) as usize);
    for y in 0..32u32 {
        for x in 0..32u32 {
            let dx = x as f32 - 15.5;
            let dy = y as f32 - 15.5;
            let expected: [u8; 4] = if dx * dx + dy * dy <= 14.0 * 14.0 {
                [20, 140, 220, 255]
            } else {
                [0, 0, 0, 0]
            };
            let i = ((y * 32 + x) * 4) as usize;
            assert_eq!(&rgba[i..i + 4], &expected, "pixel {} {}", x, y);
        }
    }
}

#[test]
fn autostart_outcome_while_saving() {
    let mut c = AppConfig::default();
    c.start_with_windows = true;
    let mut registered = false;
    assert_eq!(apply_autostart_outcome(&mut c, &mut registered, Ok(())), None);
    assert!(registered);
    assert!(c.start_with_windows);

    let mut d = AppConfig::default();
    d.start_with_windows = true;
    let mut registered = false;
    let r = apply_autostart_outcome(&mut d, &mut registered, Err("negado".to_string()));
    assert_eq!(r.as_deref(), Some("Erro ao configurar auto-start: negado"));
    assert!(!registered);
    assert!(!d.start_with_windows);
}

#[test]
fn background_notice_only_on_change() {
    let mut r = UpdateResult {
        success: true,
        ipv4: Some("1.1.1.1".to_string()),
        ipv6: None,
        ip_changed: false,
        _response: String::new(),
    };
    assert_eq!(background_success_notice(&r), None);
    r.ip_changed = true;
    assert_eq!(
        background_success_notice(&r).as_deref(),
        Some("Atualizado com sucesso!\nIPv4: 1.1.1.1\nIPv6: N/A")
    );
}

#[test]
fn tray_icon_from_file_or_builtin() {
    let (rgba, w, h) = tray_icon_rgba(&[]);
    assert_eq!((w, h), (ICON_SIZE, ICON_SIZE));
    assert_eq!(rgba, icon_rgba());
    let (rgba, w, h) = tray_icon_rgba(b"not an image");
    assert_eq!((w, h), (32, 32));
    assert_eq!(rgba.len(), 4096);

    let pixels: Vec<u8> = vec![1, 2, 3, 255, 9, 8, 7, 128];
    let img = image::RgbaImage::from_raw(2, 1, pixels.clone()).unwrap();
    let mut png = std::io::Cursor::new(Vec::new());
    img.write_to(&mut png, image::ImageFormat::Png).unwrap();
    let (rgba, w, h) = tray_icon_rgba(png.get_ref());
    assert_eq!((w, h), (2, 1));
    assert_eq!(rgba, pixels);

    let mut ico = std::io::Cursor::new(Vec::new());
    img.write_to(&mut ico, image::ImageFormat::Ico).unwrap();
    assert_eq!(&ico.get_ref()[..4], &[0, 0, 1, 0]);
    let (rgba, w, h) = tray_icon_rgba(ico.get_ref());
    assert_eq!((w, h), (2, 1));
    assert_eq!(rgba, pixels);

    // A PNG signature over bytes that are no PNG, and a JPEG signature.
    let (rgba, w, h) = tray_icon_rgba(b"\x89PNG\r\n\x1a\nbroken");
    assert_eq!((w, h, rgba), (ICON_SIZE, ICON_SIZE, icon_rgba()));
    let (rgba, w, h) = tray_icon_rgba(&[0xff, 0xd8, 0xff, 0xe0, 0, 0]);
    assert_eq!((w, h, rgba), (ICON_SIZE, ICON_SIZE, icon_rgba()));
}

#[test]
fn field_outlined_when_an_error_names_it() {
    let errors: Vec<String> =
        vec!["Domínio não pode estar vazio.".to_string(), "Intervalo deve ser >= 1 minuto.".to_string()];
    assert!(any_mentions(&errors, "Domínio"));
    assert!(any_mentions(&errors, "Intervalo"));
    assert!(!any_mentions(&errors, "Token"));
    assert!(!any_mentions(&Vec::new(), "Token"));
}

#[test]
fn waiting_messages_taken_in_order() {
    let mut s = UiStatus::new();
    let msgs = vec![
        UiUpdateMsg::Started,
        UiUpdateMsg::Finished { success: true, message: "Atualizado! a".to_string(), ip_changed: true },
        UiUpdateMsg::Started,
        UiUpdateMsg::Finished { success: false, message: "Falha: b".to_string(), ip_changed: false },
        UiUpdateMsg::Started,
    ];
    let records = s.apply_all(msgs);
    assert_eq!(records, vec![(true, "Atualizado! a".to_string()), (false, "Falha: b".to_string())]);
    assert!(s.is_updating);
    assert_eq!(s.status_message, "Atualizando IP no DuckDNS...");
    let none = s.apply_all(Vec::new());
    assert!(none.is_empty());
    assert!(s.is_updating);
    let last = s.apply_all(vec![UiUpdateMsg::Finished {
        success: true,
        message: "ok".to_string(),
        ip_changed: false,
    }]);
    assert_eq!(last.len(), 1);
    assert!(!s.is_updating);
    assert_eq!(s.status_message, "ok");
}
