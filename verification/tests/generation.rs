use pibootcfg::entries::{Config, ConfigEntry, DTOverlay, DTparam, GpuMem};
use pibootcfg::errors::UbootError;
use pibootcfg::sections::{Section, Sections};
use pibootcfg::RPiConfig;

fn kv(key: &str, value: &str) -> Config {
    Config {
        key: key.to_string(),
        value: value.to_string(),
    }
}

#[test]
fn test_dtoverlay_uboot() {
    let expected: Vec<(DTOverlay, Vec<String>)> = vec![
        (
            DTOverlay {
                overlay: "pi3-disable-bt".to_string(),
                configs: vec![],
            },
            vec!["load ${devtype} ${devnum}:${devpart} ${fdt_ovaddr} ${fdtdir}/overlays/pi3-disable-bt.dtbo",
            "fdt apply ${fdt_ovaddr}",
            ].iter_mut().map(|x| x.to_string()).collect(),
        ),
        (
            DTOverlay {
                overlay: "pi3-disable-wifi".to_string(),
                configs: vec![],
            },
            vec!["load ${devtype} ${devnum}:${devpart} ${fdt_ovaddr} ${fdtdir}/overlays/pi3-disable-wifi.dtbo",
            "fdt apply ${fdt_ovaddr}",
            ].iter_mut().map(|x| x.to_string()).collect(),
        ),
        (
            DTOverlay {
                overlay: "disable-bt".to_string(),
                configs: vec![],
            },
            vec!["load ${devtype} ${devnum}:${devpart} ${fdt_ovaddr} ${fdtdir}/overlays/disable-bt.dtbo",
            "fdt apply ${fdt_ovaddr}",
            ].iter_mut().map(|x| x.to_string()).collect(),
        ),
        (
            DTOverlay {
                overlay: "dwc2".to_string(),
                configs: vec![kv("dr_mode", "host")],
            },
            vec!["load ${devtype} ${devnum}:${devpart} ${fdt_ovaddr} ${fdtdir}/overlays/dwc2.dtbo",
            "fdt apply ${fdt_ovaddr}",
            "fdt set usb dr_mode host",
            ].iter_mut().map(|x| x.to_string()).collect(),
        ),
        (
            DTOverlay {
                overlay: "i2smaster".to_string(),
                configs: vec![],
            },
            vec!["fdt set i2s status okay"].iter_mut().map(|x| x.to_string()).collect(),
        ),
        (
            DTOverlay {
                overlay: "vc4-fkms-v3d".to_string(),
                configs: vec![],
            },
            vec!["load ${devtype} ${devnum}:${devpart} ${fdt_ovaddr} ${fdtdir}/overlays/vc4-fkms-v3d.dtbo",
            "fdt apply ${fdt_ovaddr}",
            ].iter_mut().map(|x| x.to_string()).collect(),
        ),
    ];

    for tmp in expected {
        let dtbo = tmp.0;
        let expected = tmp.1;

        let result = dtbo.generate_uboot_config().unwrap();
        assert_eq!(expected, result);
    }
}

#[test]
fn test_dtparam_uboot() {
    let expected: Vec<(DTparam, Vec<String>)> = vec![
        (
            DTparam {
                configs: vec![kv("act_led_trigger", "default-on")],
            },
            vec!["fdt set /leds/act linux,default-trigger default-on"]
                .iter_mut()
                .map(|x| x.to_string())
                .collect(),
        ),
        (
            DTparam {
                configs: vec![kv("audio", "on")],
            },
            vec!["fdt set /soc/audio status okay"]
                .iter_mut()
                .map(|x| x.to_string())
                .collect(),
        ),
        (
            DTparam {
                configs: vec![kv("i2c_arm", "on")],
            },
            vec!["fdt set i2c_arm status okay"]
                .iter_mut()
                .map(|x| x.to_string())
                .collect(),
        ),
        (
            DTparam {
                configs: vec![kv("i2s", "on")],
            },
            vec!["fdt set i2s status okay"]
                .iter_mut()
                .map(|x| x.to_string())
                .collect(),
        ),
        (
            DTparam {
                configs: vec![kv("pwr_led_activelow", "off")],
            },
            vec!["fdt set /leds/pwr gpios < ? ? 0x00 >"]
                .iter_mut()
                .map(|x| x.to_string())
                .collect(),
        ),
        (
            DTparam {
                configs: vec![kv("pwr_led_activelow", "on")],
            },
            vec!["fdt set /leds/pwr gpios < ? ? 0x01 >"]
                .iter_mut()
                .map(|x| x.to_string())
                .collect(),
        ),
        (
            DTparam {
                configs: vec![kv("pwr_led_trigger", "none")],
            },
            vec!["fdt set /leds/pwr linux,default-trigger none"]
                .iter_mut()
                .map(|x| x.to_string())
                .collect(),
        ),
        (
            DTparam {
                configs: vec![kv("spi", "on")],
            },
            vec!["fdt set spi0 status okay"]
                .iter_mut()
                .map(|x| x.to_string())
                .collect(),
        ),
        (
            DTparam {
                configs: vec![kv("watchdog", "on")],
            },
            vec!["fdt set watchdog status okay"]
                .iter_mut()
                .map(|x| x.to_string())
                .collect(),
        ),
        (
            DTparam {
                configs: vec![kv("i2c_arm_baudrate", "400000")],
            },
            vec!["fdt set i2c clock-frequency < 0x61a80 >"]
                .iter_mut()
                .map(|x| x.to_string())
                .collect(),
        ),
    ];

    for tmp in expected {
        let dtparam = tmp.0;
        let expected = tmp.1;

        let result = dtparam.generate_uboot_config().unwrap();
        assert_eq!(expected, result);
    }
}

#[test]
fn test_convert_to_uboot_config() {
    let rpiconfig = RPiConfig {
        configs: Sections {
            sections: vec![
                Section {
                    name: "all".to_string(),
                    entries: vec![ConfigEntry::DTparam(DTparam {
                        configs: vec![kv("audio", "on")],
                    })],
                },
                Section {
                    name: "pi4".to_string(),
                    entries: vec![ConfigEntry::DTOverlay(DTOverlay {
                        overlay: "vc4-fkms-v3d".to_string(),
                        configs: vec![],
                    })],
                },
            ],
        },
    };
    let expected = vec!["setexpr fdt_ovaddr ${fdt_addr} + 0x40000",
    "fdt addr ${fdt_addr}",
    "fdt resize 0x2000",
    "fdt set /soc/audio status okay",
    "if test \"${board_name}\" = \"4 Model B\"",
    "then",
    "load ${devtype} ${devnum}:${devpart} ${fdt_ovaddr} ${fdtdir}/overlays/vc4-fkms-v3d.dtbo",
    "fdt apply ${fdt_ovaddr}",
    "fi",
    "if test \"${board_name}\" = \"400\"",
    "then",
    "load ${devtype} ${devnum}:${devpart} ${fdt_ovaddr} ${fdtdir}/overlays/vc4-fkms-v3d.dtbo",
    "fdt apply ${fdt_ovaddr}",
    "fi",
    "if test \"${board_name}\" = \"Compute Module 4\"",
    "then",
    "load ${devtype} ${devnum}:${devpart} ${fdt_ovaddr} ${fdtdir}/overlays/vc4-fkms-v3d.dtbo",
    "fdt apply ${fdt_ovaddr}",
    "fi",
    "fdt mknode / system",
    "fdt set /system linux,revision < ${board_revision} >"];
    let expected = format!("bootconfig={}", expected.join(";"));

    let output = rpiconfig
        .convert_to_uboot_config("bootconfig")
        .unwrap()
        .unwrap();
    assert_eq!(expected, output);

    let rpiconfig = RPiConfig {
        configs: Sections {
            sections: vec![Section {
                name: "all".to_string(),
                entries: vec![ConfigEntry::GpuMem(GpuMem {
                    total_ramsize: Some(1024),
                    gpu_ramsize: 128,
                    model: None,
                })],
            }],
        },
    };
    let expected = vec![
        "setexpr fdt_ovaddr ${fdt_addr} + 0x40000",
        "fdt addr ${fdt_addr}",
        "fdt resize 0x2000",
        "if test \"${board_name}\" = \"3 Model B\"",
        "then",
        "fdt set / memreserve < 0x38000000 0x8000000 >",
        "fdt set /memory@0 reg < 0x00 0x38000000 >",
        "fi",
        "if test \"${board_name}\" = \"3 Model B+\"",
        "then",
        "fdt set / memreserve < 0x38000000 0x8000000 >",
        "fdt set /memory@0 reg < 0x00 0x38000000 >",
        "fi",
        "if test \"${board_name}\" = \"Compute Module 3\"",
        "then",
        "fdt set / memreserve < 0x38000000 0x8000000 >",
        "fdt set /memory@0 reg < 0x00 0x38000000 >",
        "fi",
        "if test \"${board_name}\" = \"Compute Module 3+\"",
        "then",
        "fdt set / memreserve < 0x38000000 0x8000000 >",
        "fdt set /memory@0 reg < 0x00 0x38000000 >",
        "fi",
        "if test \"${board_name}\" = \"4 Model B\"",
        "then",
        "fdt set / memreserve < 0x38000000 0x8000000 >",
        "fdt set /memory@0 reg < 0x00 0x00 0x38000000 0x00 0x40000000 0xbc000000 >",
        "fi",
        "if test \"${board_name}\" = \"400\"",
        "then",
        "fdt set / memreserve < 0x38000000 0x8000000 >",
        "fdt set /memory@0 reg < 0x00 0x00 0x38000000 0x00 0x40000000 0xbc000000 >",
        "fi",
        "if test \"${board_name}\" = \"Compute Module 4\"",
        "then",
        "fdt set / memreserve < 0x38000000 0x8000000 >",
        "fdt set /memory@0 reg < 0x00 0x00 0x38000000 0x00 0x40000000 0xbc000000 >",
        "fi",
        "fdt mknode / system",
        "fdt set /system linux,revision < ${board_revision} >",
    ];

    let expected = format!("bootconfig={}", expected.join(";"));

    let output = rpiconfig
        .convert_to_uboot_config("bootconfig")
        .unwrap()
        .unwrap();
    assert_eq!(expected, output);
}

#[test]
fn malformed_dtparam_names_key_and_value() {
    let dtparam = DTparam {
        configs: vec![kv("spi", "maybe")],
    };
    let err = dtparam.generate_uboot_config().unwrap_err();
    assert_eq!(
        err,
        UbootError::UnsupportedParamValue {
            key: "spi".to_string(),
            value: "maybe".to_string(),
        }
    );
    assert_eq!(err.message(), "Unsupported dtparam option: spi=maybe");
}

#[test]
fn baudrate_renders_as_hexadecimal() {
    let dtparam = DTparam {
        configs: vec![kv("i2c_arm_baudrate", "400000")],
    };
    let cmds = dtparam.generate_uboot_config().unwrap();
    assert_eq!(cmds, vec!["fdt set i2c clock-frequency < 0x61a80 >".to_string()]);

    let dtparam = DTparam {
        configs: vec![kv("i2c_arm_baudrate", "100000")],
    };
    let cmds = dtparam.generate_uboot_config().unwrap();
    assert_eq!(cmds, vec!["fdt set i2c clock-frequency < 0x186a0 >".to_string()]);
}

#[test]
fn unknown_dtparam_key_is_rejected() {
    let dtparam = DTparam {
        configs: vec![kv("hdmi_magic", "on")],
    };
    assert_eq!(
        dtparam.generate_uboot_config().unwrap_err(),
        UbootError::UnsupportedParamKey {
            key: "hdmi_magic".to_string(),
        }
    );
}

#[test]
fn bad_baudrate_is_rejected() {
    let dtparam = DTparam {
        configs: vec![kv("i2c_arm_baudrate", "fast")],
    };
    assert_eq!(
        dtparam.generate_uboot_config().unwrap_err(),
        UbootError::InvalidBaudrate {
            value: "fast".to_string(),
        }
    );
}

#[test]
fn parameterized_overlay_other_than_dwc2_is_rejected() {
    let dtbo = DTOverlay {
        overlay: "spi0-1cs".to_string(),
        configs: vec![kv("cs0_pin", "7")],
    };
    assert_eq!(
        dtbo.generate_uboot_config().unwrap_err(),
        UbootError::UnsupportedOverlayParams {
            overlay: "spi0-1cs".to_string(),
        }
    );
}

#[test]
fn gpumem_without_total_fails_at_generation() {
    let gm = GpuMem {
        total_ramsize: None,
        gpu_ramsize: 512,
        model: Some("3 Model B".to_string()),
    };
    assert_eq!(
        gm.generate_uboot_config().unwrap_err(),
        UbootError::MissingTotalRamsize
    );
}

#[test]
fn gpumem_share_may_not_exceed_total() {
    let gm = GpuMem {
        total_ramsize: Some(512),
        gpu_ramsize: 1024,
        model: Some("3 Model B".to_string()),
    };
    assert_eq!(
        gm.generate_uboot_config().unwrap_err(),
        UbootError::GpuExceedsTotal
    );
}

#[test]
fn gpumem_without_model_fails_at_generation() {
    let gm = GpuMem {
        total_ramsize: Some(1024),
        gpu_ramsize: 128,
        model: None,
    };
    assert_eq!(gm.generate_uboot_config().unwrap_err(), UbootError::MissingModel);
}

#[test]
fn gpumem_on_unsupported_model_is_rejected() {
    let gm = GpuMem {
        total_ramsize: Some(512),
        gpu_ramsize: 64,
        model: Some("Zero".to_string()),
    };
    assert_eq!(
        gm.generate_uboot_config().unwrap_err(),
        UbootError::UnsupportedModel {
            model: "Zero".to_string(),
        }
    );
}

#[test]
fn gpumem_size_overflow_is_rejected() {
    let gm = GpuMem {
        total_ramsize: Some(usize::MAX / 1024),
        gpu_ramsize: 128,
        model: Some("3 Model B".to_string()),
    };
    assert_eq!(gm.generate_uboot_config().unwrap_err(), UbootError::SizeOverflow);
}

#[test]
fn empty_config_converts_to_nothing() {
    let rpiconfig = RPiConfig::new();
    assert_eq!(rpiconfig.convert_to_uboot_config("bootcfg").unwrap(), None);
}

#[test]
fn generation_is_deterministic() {
    let make = || RPiConfig {
        configs: Sections {
            sections: vec![
                Section {
                    name: "all".to_string(),
                    entries: vec![
                        ConfigEntry::DTparam(DTparam {
                            configs: vec![kv("audio", "on")],
                        }),
                        ConfigEntry::GpuMem(GpuMem {
                            total_ramsize: Some(1024),
                            gpu_ramsize: 64,
                            model: None,
                        }),
                    ],
                },
                Section {
                    name: "pi3".to_string(),
                    entries: vec![ConfigEntry::DTOverlay(DTOverlay {
                        overlay: "i2smaster".to_string(),
                        configs: vec![],
                    })],
                },
            ],
        },
    };
    let first = make().convert_to_uboot_config("bootcfg").unwrap().unwrap();
    let second = make().convert_to_uboot_config("bootcfg").unwrap().unwrap();
    assert_eq!(first, second);
}
