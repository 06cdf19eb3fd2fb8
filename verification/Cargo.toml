[package]
name = "webview_app"
version = "0.1.0"
edition = "2021"
publish = false

[dependencies]
regex-lite = "0.1"
dirs = "6"
windows-sys = { version = "0.59", features = ["Win32_Foundation", "Win32_Security", "Win32_Storage_FileSystem", "Win32_System_Pipes", "Win32_System_Threading", "Win32_System_IO", "Win32_UI_Shell", "Win32_UI_WindowsAndMessaging"] }
windows = { version = "0.61", features = ["Data_Xml_Dom", "UI_Notifications", "Win32_Foundation", "Win32_System_Com", "Win32_System_Com_StructuredStorage", "Win32_System_Variant", "Win32_UI_Shell", "Win32_UI_Shell_PropertiesSystem", "Win32_Graphics_Imaging", "Win32_Storage_EnhancedStorage"] }
webview2-com = "0.38"
tao = "0.34"
wry = "0.53"
tray-icon = "0.21"
