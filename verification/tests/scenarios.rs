use pibootcfg::arrange::arrange_for_uboot;
use pibootcfg::entries::{Config, ConfigEntry, DTOverlay, DTparam, GpuMem};
use pibootcfg::errors::ParseError;
use pibootcfg::parser::{dtparam, parse};
use pibootcfg::sections::{Section, Sections};
use pibootcfg::RPiConfig;

fn kv(key: &str, value: &str) -> Config {
    Config {
        key: key.to_string(),
        value: value.to_string(),
    }
}

#[test]
fn end_to_end_scenario() {
    let text = "dtparam=audio=on\n\n[pi4]\ndtoverlay=vc4-fkms-v3d\n";
    let configs = parse(text).unwrap();
    let rpiconfig = RPiConfig { configs };
    let output = rpiconfig
        .convert_to_uboot_config("bootcfg")
        .unwrap()
        .unwrap();
    let expected = "bootcfg=setexpr fdt_ovaddr ${fdt_addr} + 0x40000;\
fdt addr ${fdt_addr};\
fdt resize 0x2000;\
fdt set /soc/audio status okay;\
if test \"${board_name}\" = \"4 Model B\";\
then;\
load ${devtype} ${devnum}:${devpart} ${fdt_ovaddr} ${fdtdir}/overlays/vc4-fkms-v3d.dtbo;\
fdt apply ${fdt_ovaddr};\
fi;\
if test \"${board_name}\" = \"400\";\
then;\
load ${devtype} ${devnum}:${devpart} ${fdt_ovaddr} ${fdtdir}/overlays/vc4-fkms-v3d.dtbo;\
fdt apply ${fdt_ovaddr};\
fi;\
if test \"${board_name}\" = \"Compute Module 4\";\
then;\
load ${devtype} ${devnum}:${devpart} ${fdt_ovaddr} ${fdtdir}/overlays/vc4-fkms-v3d.dtbo;\
fdt apply ${fdt_ovaddr};\
fi;\
fdt mknode / system;\
fdt set /system linux,revision < ${board_revision} >";
    assert_eq!(output, expected);
}

#[test]
fn partition_keeps_catch_all_and_block_order() {
    let text = "a=1\nb=2\n[pi4]\nc=3\nd=4\n";
    let configs = parse(text).unwrap();
    assert_eq!(
        configs,
        Sections {
            sections: vec![
                Section {
                    name: "all".to_string(),
                    entries: vec![
                        ConfigEntry::Command(kv("a", "1")),
                        ConfigEntry::Command(kv("b", "2")),
                    ],
                },
                Section {
                    name: "pi4".to_string(),
                    entries: vec![
                        ConfigEntry::Command(kv("c", "3")),
                        ConfigEntry::Command(kv("d", "4")),
                    ],
                },
            ],
        }
    );
}

#[test]
fn repeated_markers_append_to_the_same_bucket() {
    let text = "[pi4]\na=1\n[all]\nb=2\n[pi4]\nc=3\n";
    let configs = parse(text).unwrap();
    assert_eq!(
        configs,
        Sections {
            sections: vec![
                Section {
                    name: "all".to_string(),
                    entries: vec![ConfigEntry::Command(kv("b", "2"))],
                },
                Section {
                    name: "pi4".to_string(),
                    entries: vec![
                        ConfigEntry::Command(kv("a", "1")),
                        ConfigEntry::Command(kv("c", "3")),
                    ],
                },
            ],
        }
    );
}

#[test]
fn expansion_copies_into_every_fine_bucket() {
    let configs = Sections {
        sections: vec![Section {
            name: "pi3".to_string(),
            entries: vec![ConfigEntry::Comment("x".to_string())],
        }],
    };
    let arranged = arrange_for_uboot(&configs);
    let models = [
        "3 Model B",
        "3 Model B+",
        "3 Model A+",
        "Compute Module 3",
        "Compute Module 3+",
    ];
    assert_eq!(arranged.sections.len(), models.len());
    for (i, model) in models.iter().enumerate() {
        assert_eq!(arranged.sections[i].name, model.to_string());
        assert_eq!(
            arranged.sections[i].entries,
            vec![ConfigEntry::Comment("x".to_string())]
        );
    }
}

#[test]
fn unsupported_filter_is_skipped_without_failure() {
    let configs = Sections {
        sections: vec![
            Section {
                name: "all".to_string(),
                entries: vec![ConfigEntry::Comment("kept".to_string())],
            },
            Section {
                name: "pi9".to_string(),
                entries: vec![ConfigEntry::Comment("dropped".to_string())],
            },
        ],
    };
    let arranged = arrange_for_uboot(&configs);
    assert_eq!(
        arranged,
        Sections {
            sections: vec![Section {
                name: "all".to_string(),
                entries: vec![ConfigEntry::Comment("kept".to_string())],
            }],
        }
    );
}

#[test]
fn rehoming_1024_hits_exactly_seven_models() {
    let configs = Sections {
        sections: vec![Section {
            name: "all".to_string(),
            entries: vec![ConfigEntry::GpuMem(GpuMem {
                total_ramsize: Some(1024),
                gpu_ramsize: 128,
                model: None,
            })],
        }],
    };
    let arranged = arrange_for_uboot(&configs);
    let targets = [
        "3 Model B",
        "3 Model B+",
        "Compute Module 3",
        "Compute Module 3+",
        "4 Model B",
        "400",
        "Compute Module 4",
    ];
    assert_eq!(arranged.sections.len(), 1 + targets.len());
    assert_eq!(arranged.sections[0].name, "all".to_string());
    assert_eq!(arranged.sections[0].entries, vec![]);
    for (i, target) in targets.iter().enumerate() {
        assert_eq!(arranged.sections[i + 1].name, target.to_string());
        assert_eq!(
            arranged.sections[i + 1].entries,
            vec![ConfigEntry::GpuMem(GpuMem {
                total_ramsize: Some(1024),
                gpu_ramsize: 128,
                model: Some(target.to_string()),
            })]
        );
    }
}

#[test]
fn rehoming_512_hits_the_zero_family_and_3aplus() {
    let configs = Sections {
        sections: vec![Section {
            name: "all".to_string(),
            entries: vec![ConfigEntry::GpuMem(GpuMem {
                total_ramsize: Some(512),
                gpu_ramsize: 64,
                model: None,
            })],
        }],
    };
    let arranged = arrange_for_uboot(&configs);
    let targets = ["Zero", "Zero W", "3 Model A+"];
    assert_eq!(arranged.sections.len(), 1 + targets.len());
    assert_eq!(arranged.sections[0].entries, vec![]);
    for (i, target) in targets.iter().enumerate() {
        assert_eq!(arranged.sections[i + 1].name, target.to_string());
        assert_eq!(
            arranged.sections[i + 1].entries,
            vec![ConfigEntry::GpuMem(GpuMem {
                total_ramsize: Some(512),
                gpu_ramsize: 64,
                model: Some(target.to_string()),
            })]
        );
    }
}

#[test]
fn rehoming_256_drops_the_entry() {
    let configs = Sections {
        sections: vec![Section {
            name: "all".to_string(),
            entries: vec![ConfigEntry::GpuMem(GpuMem {
                total_ramsize: Some(256),
                gpu_ramsize: 64,
                model: None,
            })],
        }],
    };
    let arranged = arrange_for_uboot(&configs);
    assert_eq!(
        arranged,
        Sections {
            sections: vec![Section {
                name: "all".to_string(),
                entries: vec![],
            }],
        }
    );
}

#[test]
fn rehoming_leaves_unknown_totals_in_place() {
    let entry = ConfigEntry::GpuMem(GpuMem {
        total_ramsize: Some(2048),
        gpu_ramsize: 64,
        model: None,
    });
    let configs = Sections {
        sections: vec![Section {
            name: "all".to_string(),
            entries: vec![entry.clone()],
        }],
    };
    let arranged = arrange_for_uboot(&configs);
    assert_eq!(
        arranged,
        Sections {
            sections: vec![Section {
                name: "all".to_string(),
                entries: vec![entry],
            }],
        }
    );
}

#[test]
fn unparsable_input_reports_its_position() {
    assert_eq!(parse("a=1\n???\n"), Err(ParseError { pos: 4 }));
    assert_eq!(parse(""), Err(ParseError { pos: 0 }));
}

#[test]
fn dtparam_without_fields_is_a_parse_error() {
    assert!(dtparam("dtparam=").is_err());
    assert!(parse("dtparam=\n").is_err());
}

#[test]
fn overlay_with_malformed_field_is_a_parse_error() {
    assert!(parse("dtoverlay=dwc2,nonsense\n").is_err());
}

#[test]
fn bare_overlay_without_parameters_is_valid() {
    let configs = parse("dtoverlay=disable-bt\n").unwrap();
    assert_eq!(
        configs.sections[0].entries,
        vec![ConfigEntry::DTOverlay(DTOverlay {
            overlay: "disable-bt".to_string(),
            configs: vec![],
        })]
    );
}

#[test]
fn generic_command_value_may_contain_equals_signs() {
    let configs = parse("initramfs=a=b=c\n").unwrap();
    assert_eq!(
        configs.sections[0].entries,
        vec![ConfigEntry::Command(kv("initramfs", "a=b=c"))]
    );
}

#[test]
fn windows_line_endings_are_accepted() {
    let text = "dtparam=audio=on\r\n[pi4]\r\ndtoverlay=vc4-fkms-v3d\r\n";
    let configs = parse(text).unwrap();
    assert_eq!(
        configs,
        Sections {
            sections: vec![
                Section {
                    name: "all".to_string(),
                    entries: vec![ConfigEntry::DTparam(DTparam {
                        configs: vec![kv("audio", "on")],
                    })],
                },
                Section {
                    name: "pi4".to_string(),
                    entries: vec![ConfigEntry::DTOverlay(DTOverlay {
                        overlay: "vc4-fkms-v3d".to_string(),
                        configs: vec![],
                    })],
                },
            ],
        }
    );
}

#[test]
fn zero_2_w_buckets_are_not_emitted() {
    let text = "[pi0w]\ndtoverlay=i2smaster\n";
    let configs = parse(text).unwrap();
    let rpiconfig = RPiConfig { configs };
    let output = rpiconfig
        .convert_to_uboot_config("bootcfg")
        .unwrap()
        .unwrap();
    let expected = "bootcfg=setexpr fdt_ovaddr ${fdt_addr} + 0x40000;\
fdt addr ${fdt_addr};\
fdt resize 0x2000;\
if test \"${board_name}\" = \"Zero W\";\
then;\
fdt set i2s status okay;\
fi;\
fdt mknode / system;\
fdt set /system linux,revision < ${board_revision} >";
    assert_eq!(output, expected);
}
