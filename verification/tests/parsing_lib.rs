use pibootcfg::entries::{Config, ConfigEntry, DTOverlay, DTparam, GpuMem};
use pibootcfg::parser::{
    command, comment, condition_filter, config_list, dtoverlay, dtparam, gpumem, gpumem_condition,
    parse,
};
use pibootcfg::sections::{Section, Sections};

fn kv(key: &str, value: &str) -> Config {
    Config {
        key: key.to_string(),
        value: value.to_string(),
    }
}

fn section(name: &str, entries: Vec<ConfigEntry>) -> Section {
    Section {
        name: name.to_string(),
        entries,
    }
}

#[test]
fn lib_test_comment() {
    assert_eq!(
        comment("# comment"),
        Ok(("", ConfigEntry::Comment(" comment".to_string())))
    );
    assert_eq!(
        comment("# comment\n#hogehoge"),
        Ok(("#hogehoge", ConfigEntry::Comment(" comment".to_string())))
    );
}

#[test]
fn lib_test_command() {
    assert_eq!(
        command("enable_uart=1"),
        Ok((
            "",
            ConfigEntry::Command(kv("enable_uart", "1"))
        ))
    );

    assert_eq!(
        command("enable_uart=1\narm_freq=800"),
        Ok((
            "arm_freq=800",
            ConfigEntry::Command(kv("enable_uart", "1"))
        ))
    );
}

#[test]
fn lib_test_dtoverlay() {
    assert_eq!(
        dtoverlay("dtoverlay=vc4-fkms-v3d"),
        Ok((
            "",
            ConfigEntry::DTOverlay(DTOverlay {
                overlay: "vc4-fkms-v3d".to_string(),
                configs: vec![]
            })
        ))
    );
    assert_eq!(
        dtoverlay("dtoverlay=vc4-fkms-v3d\ndtoverlay=dwc2"),
        Ok((
            "dtoverlay=dwc2",
            ConfigEntry::DTOverlay(DTOverlay {
                overlay: "vc4-fkms-v3d".to_string(),
                configs: vec![]
            })
        ))
    );

    assert_eq!(
        dtoverlay("dtoverlay=spi0-1cs,cs0_pin=7,cs1_spidev=disabled"),
        Ok((
            "",
            ConfigEntry::DTOverlay(DTOverlay {
                overlay: "spi0-1cs".to_string(),
                configs: vec![kv("cs0_pin", "7"), kv("cs1_spidev", "disabled")]
            })
        ))
    );
}

#[test]
fn lib_test_dtparam() {
    assert_eq!(
        dtparam("dtparam=i2c_arm=on"),
        Ok((
            "",
            ConfigEntry::DTparam(DTparam {
                configs: vec![kv("i2c_arm", "on")]
            })
        ))
    );

    assert_eq!(
        dtparam("dtparam=i2c_arm=on,spi=on"),
        Ok((
            "",
            ConfigEntry::DTparam(DTparam {
                configs: vec![kv("i2c_arm", "on"), kv("spi", "on")]
            })
        ))
    );
}

#[test]
fn lib_test_condition_filter() {
    assert_eq!(
        condition_filter("[pi4]"),
        Ok(("", ConfigEntry::ConditionFilter("pi4".to_string())))
    );
    assert_eq!(
        condition_filter("[all]"),
        Ok(("", ConfigEntry::ConditionFilter("all".to_string())))
    );
}

#[test]
fn lib_test_config() {
    let text = r"dtparam=audio=on

[pi4]
# Enable DRM VC4 V3D driver on top of the dispmanx display stack
dtoverlay=vc4-fkms-v3d
max_framebuffers=2

[all]
#dtoverlay=vc4-fkms-v3d
enable_uart=1
dtparam=i2c_arm=on
dtoverlay=dwc2,dr_mode=host
dtoverlay=spi0-1cs,cs0_pin=7,cs1_spidev=disabled
";

    let expected = vec![
        ConfigEntry::DTparam(DTparam {
            configs: vec![kv("audio", "on")],
        }),
        ConfigEntry::ConditionFilter("pi4".to_string()),
        ConfigEntry::Comment(
            " Enable DRM VC4 V3D driver on top of the dispmanx display stack".to_string(),
        ),
        ConfigEntry::DTOverlay(DTOverlay {
            overlay: "vc4-fkms-v3d".to_string(),
            configs: vec![],
        }),
        ConfigEntry::Command(kv("max_framebuffers", "2")),
        ConfigEntry::ConditionFilter("all".to_string()),
        ConfigEntry::Comment("dtoverlay=vc4-fkms-v3d".to_string()),
        ConfigEntry::Command(kv("enable_uart", "1")),
        ConfigEntry::DTparam(DTparam {
            configs: vec![kv("i2c_arm", "on")],
        }),
        ConfigEntry::DTOverlay(DTOverlay {
            overlay: "dwc2".to_string(),
            configs: vec![kv("dr_mode", "host")],
        }),
        ConfigEntry::DTOverlay(DTOverlay {
            overlay: "spi0-1cs".to_string(),
            configs: vec![kv("cs0_pin", "7"), kv("cs1_spidev", "disabled")],
        }),
    ];

    assert_eq!(config_list(text), Ok(("", expected)));
}

#[test]
fn lib_test_parse() {
    let text = r"dtparam=audio=on

[pi4]
# Enable DRM VC4 V3D driver on top of the dispmanx display stack
dtoverlay=vc4-fkms-v3d
max_framebuffers=2

[all]
#dtoverlay=vc4-fkms-v3d
enable_uart=1
dtparam=i2c_arm=on
dtoverlay=dwc2,dr_mode=host
dtoverlay=spi0-1cs,cs0_pin=7,cs1_spidev=disabled
";

    let expected = Sections {
        sections: vec![
            section(
                "all",
                vec![
                    ConfigEntry::DTparam(DTparam {
                        configs: vec![kv("audio", "on")],
                    }),
                    ConfigEntry::Comment("dtoverlay=vc4-fkms-v3d".to_string()),
                    ConfigEntry::Command(kv("enable_uart", "1")),
                    ConfigEntry::DTparam(DTparam {
                        configs: vec![kv("i2c_arm", "on")],
                    }),
                    ConfigEntry::DTOverlay(DTOverlay {
                        overlay: "dwc2".to_string(),
                        configs: vec![kv("dr_mode", "host")],
                    }),
                    ConfigEntry::DTOverlay(DTOverlay {
                        overlay: "spi0-1cs".to_string(),
                        configs: vec![kv("cs0_pin", "7"), kv("cs1_spidev", "disabled")],
                    }),
                ],
            ),
            section(
                "pi4",
                vec![
                    ConfigEntry::Comment(
                        " Enable DRM VC4 V3D driver on top of the dispmanx display stack"
                            .to_string(),
                    ),
                    ConfigEntry::DTOverlay(DTOverlay {
                        overlay: "vc4-fkms-v3d".to_string(),
                        configs: vec![],
                    }),
                    ConfigEntry::Command(kv("max_framebuffers", "2")),
                ],
            ),
        ],
    };

    assert_eq!(parse(text), Ok(expected));
}

#[test]
fn lib_test_parse_led_trigger() {
    let text = r"dtparam=act_led_trigger=default-on
dtparam=pwr_led_trigger=none
dtparam=pwr_led_activelow=on
";

    let expected = Sections {
        sections: vec![section(
            "all",
            vec![
                ConfigEntry::DTparam(DTparam {
                    configs: vec![kv("act_led_trigger", "default-on")],
                }),
                ConfigEntry::DTparam(DTparam {
                    configs: vec![kv("pwr_led_trigger", "none")],
                }),
                ConfigEntry::DTparam(DTparam {
                    configs: vec![kv("pwr_led_activelow", "on")],
                }),
            ],
        )],
    };

    assert_eq!(parse(text), Ok(expected));
}

#[test]
fn lib_test_parse_gpumem() {
    let text = "gpu_mem=512\ngpu_mem_1024=512\n";

    let expected = Sections {
        sections: vec![section(
            "all",
            vec![
                ConfigEntry::GpuMem(GpuMem {
                    total_ramsize: None,
                    gpu_ramsize: 512,
                    model: None,
                }),
                ConfigEntry::GpuMem(GpuMem {
                    total_ramsize: Some(1024),
                    gpu_ramsize: 512,
                    model: None,
                }),
            ],
        )],
    };

    assert_eq!(parse(text), Ok(expected));
}

#[test]
fn lib_test_gpumem() {
    assert_eq!(
        gpumem("gpu_mem=512"),
        Ok((
            "",
            ConfigEntry::GpuMem(GpuMem {
                total_ramsize: None,
                gpu_ramsize: 512,
                model: None,
            }),
        ))
    );
}

#[test]
fn lib_test_gpumem_condition() {
    assert_eq!(
        gpumem_condition("gpu_mem_1024=512"),
        Ok((
            "",
            ConfigEntry::GpuMem(GpuMem {
                total_ramsize: Some(1024),
                gpu_ramsize: 512,
                model: None
            }),
        ))
    );
}
